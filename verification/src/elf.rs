//! A minimal ELF64 reader over a byte slice.
//!
//! Turns an embedded user binary (a static, non-PIE, fixed-base ELF64) into
//! its entry point and its `PT_LOAD` segments.  Only *structure* is
//! validated here: the magic, ELF64-ness, little-endian, `ET_EXEC`, the
//! header and program-header bounds, and per-segment size sanity.
//! *Placement* is the loader's.
//!
//! Field offsets are the System V ELF64 ABI: the ELF header's
//! `e_entry @ 24`, `e_phoff @ 32`, `e_phentsize @ 54`, `e_phnum @ 56`; the
//! program header's `p_type @ 0`, `p_flags @ 4`, `p_offset @ 8`,
//! `p_vaddr @ 16`, `p_filesz @ 32`, `p_memsz @ 40`.

use vstd::prelude::*;

verus! {

/// A `PT_LOAD` segment of a user ELF. Coordinates into the source slice; the
/// loader owns the mapping.
#[derive(Debug, PartialEq, Eq, Copy, Clone, Structural)]
pub struct Segment {
    /// Virtual address the segment is placed at.
    pub vaddr: u64,
    /// Offset into the ELF of the file-backed part.
    pub offset: u64,
    /// Number of file bytes to copy.
    pub filesz: u64,
    /// In-memory size; the `memsz - filesz` tail is zero-filled bss.
    pub memsz: u64,
    /// The segment is executable text (`p_flags & PF_X`).
    pub is_exec: bool,
}

/// A parsed user ELF: the entry point and its `PT_LOAD` segments.
#[derive(Debug, PartialEq, Eq, Clone)]
pub struct Elf {
    /// `e_entry`, where the process starts.
    pub entry: u64,
    /// The `PT_LOAD` segments, in program-header order.
    segments: Vec<Segment>,
}

impl View for Elf {
    type V = (u64, Seq<Segment>);

    /// The entry point and the segments, in program-header order.
    closed spec fn view(&self) -> (u64, Seq<Segment>) {
        (self.entry, self.segments@)
    }
}

impl Elf {
    /// `e_entry`, where the process starts.
    pub fn entry(&self) -> (r: u64)
        ensures
            r == self@.0,
    {
        self.entry
    }

    /// The segments as a sequence.
    pub open spec fn segment_seq(&self) -> Seq<Segment> {
        self@.1
    }

    /// The valid `PT_LOAD` segments, in program-header order.
    pub fn segments(&self) -> (r: &[Segment])
        ensures
            r@ == self.segment_seq(),
    {
        self.segments.as_slice()
    }
}

/// The most `PT_LOAD` segments the reader accepts.  A slice with more is
/// refused, not silently truncated.
pub const MAX_SEGMENTS: usize = 16;

/// The reasons a user ELF is refused.
#[derive(Debug, PartialEq, Eq, Clone, Copy, Structural)]
pub enum ElfError {
    /// `e_ident` is not `\x7fELF`.
    NotElf,
    /// `EI_CLASS` is not 64-bit.
    Not64,
    /// `EI_DATA` is not little-endian.
    WrongEndian,
    /// `e_type` is not `ET_EXEC` (a PIE / `ET_DYN` image is refused).
    NotExec,
    /// No `PT_LOAD` segments: nothing to load.
    NoLoadSegment,
    /// The ELF header or the program-header table runs past the slice.
    Truncated,
    /// A segment is ill-formed: `filesz > memsz`, or `offset + filesz` runs
    /// past the slice.
    BadSegment,
    /// More than [`MAX_SEGMENTS`] `PT_LOAD` segments.
    TooManySegments,
}

/// `e_ident[EI_CLASS]` for a 64-bit ELF.
pub const EI_CLASS64: u8 = 2;
/// `e_ident[EI_DATA]` for little-endian.
pub const EI_DATA_LE: u8 = 1;
/// `e_type` the loader accepts: a static, fixed-base executable.
pub const ET_EXEC: u16 = 2;
/// `p_type` the loader maps.
pub const PT_LOAD: u32 = 1;
/// `p_flags` bit: executable.
pub const PF_X: u32 = 1;
/// ELF64 header size; the header must fit before anything is read.
pub const EHDR_SIZE: usize = 64;
/// ELF64 program-header size.
pub const PHDR_SIZE: usize = 56;

/// The little-endian `u16` at `off`.
pub open spec fn le16(s: Seq<u8>, off: int) -> int {
    s[off] + 256 * s[off + 1]
}

/// The little-endian `u32` at `off`.
pub open spec fn le32(s: Seq<u8>, off: int) -> int {
    le16(s, off) + 65536 * le16(s, off + 2)
}

/// The little-endian `u64` at `off`.
pub open spec fn le64(s: Seq<u8>, off: int) -> int {
    le32(s, off) + 4294967296 * le32(s, off + 4)
}

/// The segment described by the program header at `base`.
pub open spec fn segment_at(s: Seq<u8>, base: int) -> Segment {
    Segment {
        vaddr: le64(s, base + 16) as u64,
        offset: le64(s, base + 8) as u64,
        filesz: le64(s, base + 32) as u64,
        memsz: le64(s, base + 40) as u64,
        is_exec: le32(s, base + 4) % 2 == 1,
    }
}

/// Walk the program headers from index `i` on, given the `PT_LOAD`
/// segments `acc` already accepted: the accepted list, or the first
/// refusal in program-header order.
pub open spec fn scan_headers(s: Seq<u8>, phoff: int, phnum: int, i: int, acc: Seq<Segment>) -> Result<
    Seq<Segment>,
    ElfError,
>
    decreases phnum - i,
{
    if i >= phnum {
        Ok(acc)
    } else {
        let base = phoff + i * 56;
        if le32(s, base) != 1 {
            scan_headers(s, phoff, phnum, i + 1, acc)
        } else {
            let seg = segment_at(s, base);
            if seg.filesz > seg.memsz {
                Err(ElfError::BadSegment)
            } else if seg.offset + seg.filesz > s.len() {
                Err(ElfError::BadSegment)
            } else if acc.len() == 16 {
                Err(ElfError::TooManySegments)
            } else {
                scan_headers(s, phoff, phnum, i + 1, acc.push(seg))
            }
        }
    }
}

/// What `parse` makes of the bytes `s`: the entry point and the `PT_LOAD`
/// segments, or the first reason to refuse them.
pub open spec fn spec_parse(s: Seq<u8>) -> Result<(u64, Seq<Segment>), ElfError> {
    if s.len() < 16 {
        Err(ElfError::Truncated)
    } else if !(s[0] == 0x7f && s[1] == 0x45 && s[2] == 0x4c && s[3] == 0x46) {
        Err(ElfError::NotElf)
    } else if s[4] != 2 {
        Err(ElfError::Not64)
    } else if s[5] != 1 {
        Err(ElfError::WrongEndian)
    } else if s.len() < 64 {
        Err(ElfError::Truncated)
    } else if le16(s, 16) != 2 {
        Err(ElfError::NotExec)
    } else {
        let phoff = le64(s, 32);
        let phentsize = le16(s, 54);
        let phnum = le16(s, 56);
        if phnum > 0 && phentsize != 56 {
            Err(ElfError::Truncated)
        } else if phnum > 0 && phoff + phnum * 56 > s.len() {
            Err(ElfError::Truncated)
        } else {
            finish_parse(scan_headers(s, phoff, phnum, 0, Seq::empty()), le64(s, 24) as u64)
        }
    }
}

/// The parse result once the header walk has produced `walk`.
pub open spec fn finish_parse(walk: Result<Seq<Segment>, ElfError>, entry: u64) -> Result<
    (u64, Seq<Segment>),
    ElfError,
> {
    match walk {
        Err(e) => Err(e),
        Ok(segs) => if segs.len() == 0 {
            Err(ElfError::NoLoadSegment)
        } else {
            Ok((entry, segs))
        },
    }
}

/// A segment list that passes the structure checks against a slice of
/// `len` bytes: never more than the bound, each file part inside the slice
/// and no larger than its in-memory size.
pub open spec fn segments_well_formed(segs: Seq<Segment>, len: int) -> bool {
    &&& 0 < segs.len() <= MAX_SEGMENTS
    &&& forall|k: int|
        0 <= k < segs.len() ==> {
            &&& #[trigger] segs[k].filesz <= segs[k].memsz
            &&& segs[k].offset + segs[k].filesz <= len
        }
}

/// Every list the walk accepts keeps the structure checks, given that the
/// list it started from did.
proof fn lemma_scan_well_formed(s: Seq<u8>, phoff: int, phnum: int, i: int, acc: Seq<Segment>)
    requires
        acc.len() <= MAX_SEGMENTS,
        forall|k: int|
            0 <= k < acc.len() ==> {
                &&& #[trigger] acc[k].filesz <= acc[k].memsz
                &&& acc[k].offset + acc[k].filesz <= s.len()
            },
    ensures
        scan_headers(s, phoff, phnum, i, acc) matches Ok(segs) ==> {
            &&& segs.len() <= MAX_SEGMENTS
            &&& forall|k: int|
                0 <= k < segs.len() ==> {
                    &&& #[trigger] segs[k].filesz <= segs[k].memsz
                    &&& segs[k].offset + segs[k].filesz <= s.len()
                }
        },
    decreases phnum - i,
{
    if i < phnum {
        let base = phoff + i * 56;
        if le32(s, base) != 1 {
            lemma_scan_well_formed(s, phoff, phnum, i + 1, acc);
        } else {
            let seg = segment_at(s, base);
            if seg.filesz <= seg.memsz && seg.offset + seg.filesz <= s.len() && acc.len() != 16 {
                let next = acc.push(seg);
                assert forall|k: int| 0 <= k < next.len() implies {
                    &&& #[trigger] next[k].filesz <= next[k].memsz
                    &&& next[k].offset + next[k].filesz <= s.len()
                } by {
                    if k < acc.len() {
                        assert(next[k] == acc[k]);
                    }
                }
                lemma_scan_well_formed(s, phoff, phnum, i + 1, next);
            }
        }
    }
}

/// Read a little-endian `u16` at `off`, or `Truncated` if it runs past the end.
fn read_u16(elf: &[u8], off: usize) -> (r: Result<u16, ElfError>)
    requires
        off + 2 <= usize::MAX,
    ensures
        r == (if off + 2 <= elf@.len() {
            Ok(le16(elf@, off as int) as u16)
        } else {
            Err(ElfError::Truncated)
        }),
{
    if off + 2 > elf.len() {
        return Err(ElfError::Truncated);
    }
    Ok(elf[off] as u16 + (elf[off + 1] as u16) * 256)
}

/// Read a little-endian `u32` at `off`, or `Truncated` if it runs past the end.
fn read_u32(elf: &[u8], off: usize) -> (r: Result<u32, ElfError>)
    requires
        off + 4 <= usize::MAX,
    ensures
        r == (if off + 4 <= elf@.len() {
            Ok(le32(elf@, off as int) as u32)
        } else {
            Err(ElfError::Truncated)
        }),
{
    if off + 4 > elf.len() {
        return Err(ElfError::Truncated);
    }
    Ok(elf[off] as u32 + (elf[off + 1] as u32) * 256 + (elf[off + 2] as u32) * 65536 + (elf[off
        + 3] as u32) * 16777216)
}

/// Read a little-endian `u64` at `off`, or `Truncated` if it runs past the end.
fn read_u64(elf: &[u8], off: usize) -> (r: Result<u64, ElfError>)
    requires
        off + 8 <= usize::MAX,
    ensures
        r == (if off + 8 <= elf@.len() {
            Ok(le64(elf@, off as int) as u64)
        } else {
            Err(ElfError::Truncated)
        }),
{
    if off + 8 > elf.len() {
        return Err(ElfError::Truncated);
    }
    let lo = elf[off] as u64 + (elf[off + 1] as u64) * 256 + (elf[off + 2] as u64) * 65536 + (
    elf[off + 3] as u64) * 16777216;
    let hi = elf[off + 4] as u64 + (elf[off + 5] as u64) * 256 + (elf[off + 6] as u64) * 65536 + (
    elf[off + 7] as u64) * 16777216;
    Ok(lo + hi * 4294967296)
}

/// Turn an embedded user ELF into its entry point and `PT_LOAD` segments.
///
/// Validates structure only; placement is the arch loader's job.
pub fn parse(elf: &[u8]) -> (r: Result<Elf, ElfError>)
    ensures
        match r {
            Ok(e) => spec_parse(elf@) == Ok::<(u64, Seq<Segment>), ElfError>(e@),
            Err(err) => spec_parse(elf@) == Err::<(u64, Seq<Segment>), ElfError>(err),
        },
        r matches Ok(e) ==> segments_well_formed(e.segment_seq(), elf@.len() as int),
{
    // The 16-byte `e_ident` and the whole 64-byte header must be present.
    if elf.len() < 16 {
        return Err(ElfError::Truncated);
    }
    if !(elf[0] == 0x7f && elf[1] == 0x45 && elf[2] == 0x4c && elf[3] == 0x46) {
        return Err(ElfError::NotElf);
    }
    if elf[4] != EI_CLASS64 {
        return Err(ElfError::Not64);
    }
    if elf[5] != EI_DATA_LE {
        return Err(ElfError::WrongEndian);
    }
    if elf.len() < EHDR_SIZE {
        return Err(ElfError::Truncated);
    }
    let e_type = read_u16(elf, 16)?;
    if e_type != ET_EXEC {
        return Err(ElfError::NotExec);
    }
    let entry = read_u64(elf, 24)?;
    let phoff = read_u64(elf, 32)?;
    let phentsize = read_u16(elf, 54)?;
    let phnum = read_u16(elf, 56)?;
    let len = elf.len() as u64;

    if phnum > 0 {
        // A 64-bit program header is exactly `PHDR_SIZE`.
        if phentsize as usize != PHDR_SIZE {
            return Err(ElfError::Truncated);
        }
        // The whole program-header table must fit before we walk it.
        let table_end = match phoff.checked_add(phnum as u64 * PHDR_SIZE as u64) {
            Some(t) => t,
            None => return Err(ElfError::Truncated),
        };
        if table_end > len {
            return Err(ElfError::Truncated);
        }
    }
    assert(elf@.len() <= usize::MAX);
    let ghost s = elf@;
    let ghost want = scan_headers(s, phoff as int, phnum as int, 0, Seq::empty());
    let mut segments: Vec<Segment> = Vec::new();
    let mut i: usize = 0;
    while i < phnum as usize
        invariant
            s == elf@,
            len == s.len(),
            s.len() <= usize::MAX,
            phnum > 0 ==> phoff + phnum * 56 <= s.len(),
            i <= phnum,
            segments@.len() <= MAX_SEGMENTS,
            want == scan_headers(s, phoff as int, phnum as int, 0, Seq::empty()),
            spec_parse(s) == finish_parse(want, entry),
            want == scan_headers(s, phoff as int, phnum as int, i as int, segments@),
        decreases phnum - i,
    {
        // `i < phnum` and the table fits, so `base` is in-slice.
        proof {
            assert(phoff + i * 56 + 56 <= phoff + phnum * 56) by (nonlinear_arith)
                requires
                    i < phnum,
            ;
        }
        let base = (phoff + i as u64 * PHDR_SIZE as u64) as usize;
        let p_type = read_u32(elf, base)?;
        if p_type != PT_LOAD {
            i = i + 1;
            continue;
        }
        let p_flags = read_u32(elf, base + 4)?;
        let offset = read_u64(elf, base + 8)?;
        let vaddr = read_u64(elf, base + 16)?;
        let filesz = read_u64(elf, base + 32)?;
        let memsz = read_u64(elf, base + 40)?;
        proof {
            let sg = segment_at(s, base as int);
            assert(sg.offset == offset && sg.filesz == filesz && sg.memsz == memsz);
            assert(le32(s, base as int) == 1);
            assert(base as int == phoff + i * 56);
        }
        // Size sanity (structure, not placement).
        if filesz > memsz {
            return Err(ElfError::BadSegment);
        }
        let seg_end = match offset.checked_add(filesz) {
            Some(e) => e,
            None => return Err(ElfError::BadSegment),
        };
        if seg_end > len {
            return Err(ElfError::BadSegment);
        }
        if segments.len() == MAX_SEGMENTS {
            return Err(ElfError::TooManySegments);
        }
        let seg = Segment { vaddr, offset, filesz, memsz, is_exec: p_flags & PF_X != 0 };
        proof {
            assert(p_flags & 1 != 0 <==> p_flags % 2 == 1) by (bit_vector);
            assert(seg == segment_at(s, base as int));
        }
        segments.push(seg);
        i = i + 1;
    }
    if segments.len() == 0 {
        return Err(ElfError::NoLoadSegment);
    }
    proof {
        lemma_scan_well_formed(s, phoff as int, phnum as int, 0, Seq::empty());
    }
    Ok(Elf { entry, segments })
}


/// The segment of program header `k`, when it is a `PT_LOAD`.
pub open spec fn load_at(s: Seq<u8>, phoff: int, k: int) -> Seq<Segment> {
    if le32(s, phoff + k * 56) == 1 {
        seq![segment_at(s, phoff + k * 56)]
    } else {
        Seq::empty()
    }
}

/// The `PT_LOAD` segments among program headers `i..n`, in order.
pub open spec fn loads_between(s: Seq<u8>, phoff: int, i: int, n: int) -> Seq<Segment>
    decreases n - i,
{
    if n <= i {
        Seq::empty()
    } else {
        loads_between(s, phoff, i, n - 1) + load_at(s, phoff, n - 1)
    }
}

proof fn lemma_loads_front(s: Seq<u8>, phoff: int, i: int, n: int)
    requires
        i < n,
    ensures
        loads_between(s, phoff, i, n) == load_at(s, phoff, i) + loads_between(s, phoff, i + 1, n),
    decreases n - i,
{
    if n == i + 1 {
        assert(loads_between(s, phoff, i, i) =~= Seq::<Segment>::empty());
        assert(loads_between(s, phoff, i + 1, n) =~= Seq::<Segment>::empty());
        assert(Seq::<Segment>::empty() + load_at(s, phoff, i) =~= load_at(s, phoff, i) + Seq::<Segment>::empty());
    } else {
        lemma_loads_front(s, phoff, i, n - 1);
        assert(loads_between(s, phoff, i, n) =~= load_at(s, phoff, i) + loads_between(s, phoff, i + 1, n));
    }
}

/// The walk over headers `i..phnum`, from the accepted list `acc`: it
/// accepts exactly `acc` and every `PT_LOAD` after it, skipping the other
/// headers; it refuses too many only when there are more than the bound,
/// and a bad segment only for a `PT_LOAD` header whose file part does not
/// fit.
proof fn lemma_scan_collects_loads(s: Seq<u8>, phoff: int, phnum: int, i: int, acc: Seq<Segment>)
    ensures
        scan_headers(s, phoff, phnum, i, acc) matches Ok(segs) ==> segs == acc + loads_between(
            s,
            phoff,
            i,
            phnum,
        ),
        scan_headers(s, phoff, phnum, i, acc) == Err::<Seq<Segment>, ElfError>(ElfError::TooManySegments)
            ==> acc.len() + loads_between(s, phoff, i, phnum).len() > MAX_SEGMENTS,
        scan_headers(s, phoff, phnum, i, acc) == Err::<Seq<Segment>, ElfError>(ElfError::BadSegment)
            ==> exists|k: int| i <= k < phnum && #[trigger] load_fails(s, phoff, k),
        scan_headers(s, phoff, phnum, i, acc) != Err::<Seq<Segment>, ElfError>(ElfError::NoLoadSegment),
    decreases phnum - i,
{
    if i >= phnum {
        assert(loads_between(s, phoff, i, phnum) =~= Seq::<Segment>::empty());
        assert(acc + Seq::<Segment>::empty() =~= acc);
    } else {
        let base = phoff + i * 56;
        lemma_loads_front(s, phoff, i, phnum);
        let rest = loads_between(s, phoff, i + 1, phnum);
        if le32(s, base) != 1 {
            lemma_scan_collects_loads(s, phoff, phnum, i + 1, acc);
            assert(load_at(s, phoff, i) =~= Seq::<Segment>::empty());
            assert(Seq::<Segment>::empty() + rest =~= rest);
        } else {
            let seg = segment_at(s, base);
            if seg.filesz > seg.memsz || seg.offset + seg.filesz > s.len() {
                assert(load_fails(s, phoff, i));
            } else if acc.len() == 16 {
            } else {
                lemma_scan_collects_loads(s, phoff, phnum, i + 1, acc.push(seg));
                assert(acc.push(seg) + rest =~= acc + (seq![seg] + rest));
            }
        }
    }
}

/// Program header `k` is a `PT_LOAD` whose file part does not fit: larger
/// than its in-memory size, or past the end of the bytes.
pub open spec fn load_fails(s: Seq<u8>, phoff: int, k: int) -> bool {
    let seg = segment_at(s, phoff + k * 56);
    le32(s, phoff + k * 56) == 1 && (seg.filesz > seg.memsz || seg.offset + seg.filesz > s.len())
}

/// `parse` keeps every loadable segment: the segments it returns are
/// exactly the `PT_LOAD` headers among all `e_phnum` program headers, in
/// order, whatever other headers stand between them; it reports no
/// loadable segment only when none of the headers is a `PT_LOAD`, too many
/// only when there are more than the bound, and a bad segment only for a
/// `PT_LOAD` header whose file part does not fit.
pub proof fn lemma_parse_keeps_every_load(s: Seq<u8>)
    ensures
        spec_parse(s) matches Ok((entry, segs)) ==> segs == loads_between(s, le64(s, 32), 0, le16(s, 56))
            && entry == le64(s, 24) as u64,
        spec_parse(s) == Err::<(u64, Seq<Segment>), ElfError>(ElfError::NoLoadSegment)
            ==> loads_between(s, le64(s, 32), 0, le16(s, 56)).len() == 0,
        spec_parse(s) == Err::<(u64, Seq<Segment>), ElfError>(ElfError::TooManySegments)
            ==> loads_between(s, le64(s, 32), 0, le16(s, 56)).len() > MAX_SEGMENTS,
        spec_parse(s) == Err::<(u64, Seq<Segment>), ElfError>(ElfError::BadSegment) ==> exists|k: int|
            0 <= k < le16(s, 56) && #[trigger] load_fails(s, le64(s, 32), k),
{
    let phoff = le64(s, 32);
    let phnum = le16(s, 56);
    let loads = loads_between(s, phoff, 0, phnum);
    lemma_scan_collects_loads(s, phoff, phnum, 0, Seq::empty());
    assert(Seq::<Segment>::empty() + loads =~= loads);
    let walk = scan_headers(s, phoff, phnum, 0, Seq::empty());
    let reaches = !(s.len() < 16) && (s[0] == 0x7f && s[1] == 0x45 && s[2] == 0x4c && s[3] == 0x46)
        && s[4] == 2 && s[5] == 1 && !(s.len() < 64) && le16(s, 16) == 2 && !(phnum > 0 && le16(
        s,
        54,
    ) != 56) && !(phnum > 0 && phoff + phnum * 56 > s.len());
    if reaches {
        assert(spec_parse(s) == finish_parse(walk, le64(s, 24) as u64));
        match walk {
            Ok(segs) => {
                assert(segs == loads);
            },
            Err(e) => {
                assert(spec_parse(s) == Err::<(u64, Seq<Segment>), ElfError>(e));
            },
        }
    } else {
        assert(spec_parse(s) is Err);
        assert(spec_parse(s) != Err::<(u64, Seq<Segment>), ElfError>(ElfError::NoLoadSegment));
        assert(spec_parse(s) != Err::<(u64, Seq<Segment>), ElfError>(ElfError::TooManySegments));
        assert(spec_parse(s) != Err::<(u64, Seq<Segment>), ElfError>(ElfError::BadSegment));
    }
}

} // verus!
