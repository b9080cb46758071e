//! Minimal, deliberately strict ELF64 loader for the Limine protocol backend:
//! it accepts little-endian x86_64 `ET_EXEC` kernels whose `PT_LOAD`
//! segments are page aligned and live in the higher half.

use vstd::prelude::*;
use crate::bytes::{le16, le32, le64, lemma_le_bounds, u16_at, u32_at, u64_at};

verus! {

pub const PAGE_SIZE: usize = 4096;

/// A `PT_LOAD` program header.
#[derive(Clone, Copy, Debug)]
pub struct Segment {
    pub virtual_address: u64,
    pub file_offset: usize,
    pub file_size: usize,
    pub memory_size: usize,
    pub flags: u32,
}

/// A segment after it was copied into memory at `physical_address`.
#[derive(Clone, Copy, Debug)]
pub struct LoadedSegment {
    pub virtual_address: u64,
    pub physical_address: u64,
    pub length: usize,
    pub flags: u32,
    pub file_offset: usize,
    pub file_size: usize,
}

/// A kernel image whose ELF header was checked.
pub struct Image<'a> {
    bytes: &'a [u8],
    pub entry: u64,
    program_headers_offset: usize,
    program_headers_count: usize,
    program_header_size: usize,
}

/// What the ELF header says about the program header table.
pub struct ElfHeader {
    pub entry: u64,
    pub table_offset: int,
    pub table_count: int,
}

/// Whether the file starts with the ELF magic and is long enough for a header.
pub open spec fn has_elf_magic(b: Seq<u8>) -> bool {
    b.len() >= 64 && b[0] == 0x7f && b[1] == 0x45 && b[2] == 0x4c && b[3] == 0x46
}

/// The checks of `Image::parse`, in the order it makes them.
pub open spec fn parse_elf(b: Seq<u8>) -> Result<ElfHeader, &'static str> {
    if !has_elf_magic(b) {
        Err("kernel is not an ELF file")
    } else if b[4] != 2 || b[5] != 1 {
        Err("kernel must be little-endian ELF64")
    } else if le16(b, 16) != 2 || le16(b, 18) != 62 {
        Err("kernel must be an x86_64 ET_EXEC ELF")
    } else if le64(b, 32) > usize::MAX {
        Err("ELF offsets exceed usize")
    } else if le16(b, 54) != 56 {
        Err("unexpected ELF program header size")
    } else if le64(b, 32) + 56 * le16(b, 56) > usize::MAX {
        Err("ELF table overflow")
    } else if le64(b, 32) + 56 * le16(b, 56) > b.len() {
        Err("truncated ELF program header table")
    } else {
        Ok(ElfHeader { entry: le64(b, 24) as u64, table_offset: le64(b, 32), table_count: le16(b, 56) })
    }
}

/// The program header at `off`: `None` unless it is `PT_LOAD`, an error if
/// the segment is not a valid higher-half, page-aligned segment inside the
/// file.
pub open spec fn segment_at(b: Seq<u8>, off: int) -> Result<Option<Segment>, &'static str> {
    let file_offset = le64(b, off + 8);
    let virtual_address = le64(b, off + 16);
    let file_size = le64(b, off + 32);
    let memory_size = le64(b, off + 40);
    if le32(b, off) != 1 {
        Ok(None)
    } else if file_offset > usize::MAX {
        Err("ELF offset exceeds usize")
    } else if file_size > usize::MAX || memory_size > usize::MAX {
        Err("ELF size exceeds usize")
    } else if memory_size < file_size || virtual_address < 0xffff_8000_0000_0000 {
        Err("PT_LOAD segment is not a valid higher-half Limine segment")
    } else if virtual_address % 4096 != 0 || file_offset % 4096 != 0 {
        Err("PT_LOAD segments must be page aligned")
    } else if file_offset + file_size > usize::MAX {
        Err("ELF segment overflow")
    } else if file_offset + file_size > b.len() {
        Err("truncated ELF segment")
    } else {
        Ok(
            Some(
                Segment {
                    virtual_address: virtual_address as u64,
                    file_offset: file_offset as usize,
                    file_size: file_size as usize,
                    memory_size: memory_size as usize,
                    flags: le32(b, off + 4) as u32,
                },
            ),
        )
    }
}

/// The `PT_LOAD` segments among the first `n` program headers of the table
/// at `base`, in order; the first invalid one decides the error.
pub open spec fn segments_upto(b: Seq<u8>, base: int, n: int) -> Result<Seq<Segment>, &'static str>
    decreases n,
{
    if n <= 0 {
        Ok(Seq::empty())
    } else {
        match segments_upto(b, base, n - 1) {
            Err(e) => Err(e),
            Ok(s) => match segment_at(b, base + 56 * (n - 1)) {
                Err(e) => Err(e),
                Ok(None) => Ok(s),
                Ok(Some(g)) => Ok(s.push(g)),
            },
        }
    }
}

/// `pages_for`: the number of 4 KiB pages covering `bytes`, if positive and
/// computable without overflow.
pub open spec fn pages_for_spec(bytes: usize) -> Result<usize, &'static str> {
    if bytes == 0 || bytes + 4095 > usize::MAX {
        Err("invalid empty or oversized ELF segment")
    } else {
        Ok(((bytes + 4095) / 4096) as usize)
    }
}

impl<'a> Image<'a> {
    /// The file the image was parsed from.
    pub closed spec fn data(&self) -> Seq<u8> {
        self.bytes@
    }

    /// The header facts the image holds.
    pub closed spec fn header(&self) -> ElfHeader {
        ElfHeader {
            entry: self.entry,
            table_offset: self.program_headers_offset as int,
            table_count: self.program_headers_count as int,
        }
    }

    /// The program header table lies inside the file.
    pub closed spec fn wf(&self) -> bool {
        &&& self.program_header_size == 56
        &&& self.program_headers_offset + 56 * self.program_headers_count <= self.bytes@.len()
    }

    /// The entry point: the value of the public `entry` field, the
    /// little-endian word at offset 24 of the file.
    pub fn entry_point(&self) -> (e: u64)
        ensures
            e == self.header().entry,
    {
        self.entry
    }

    /// Checks the ELF header of `bytes`.
    pub fn parse(bytes: &'a [u8]) -> (r: Result<Self, &'static str>)
        ensures
            r matches Ok(img) ==> parse_elf(bytes@) == Ok::<ElfHeader, &'static str>(img.header())
                && img.data() == bytes@ && img.wf(),
            r matches Ok(img) ==> img.header().entry == le64(bytes@, 24) as u64,
            r matches Err(e) ==> parse_elf(bytes@) == Err::<ElfHeader, &'static str>(e),
    {
        if bytes.len() < 64 || !(bytes[0] == 0x7f && bytes[1] == 0x45 && bytes[2] == 0x4c
            && bytes[3] == 0x46) {
            return Err("kernel is not an ELF file");
        }
        if bytes[4] != 2 || bytes[5] != 1 {
            return Err("kernel must be little-endian ELF64");
        }
        if read_u16(bytes, 16)? != 2 || read_u16(bytes, 18)? != 62 {
            return Err("kernel must be an x86_64 ET_EXEC ELF");
        }
        let offset = read_u64(bytes, 32)?;
        proof {
            lemma_le_bounds(bytes@, 24);
            lemma_le_bounds(bytes@, 32);
        }
        if offset > usize::MAX as u64 {
            return Err("ELF offsets exceed usize");
        }
        let program_headers_offset = offset as usize;
        let program_header_size = read_u16(bytes, 54)? as usize;
        let program_headers_count = read_u16(bytes, 56)? as usize;
        if program_header_size != 56 {
            return Err("unexpected ELF program header size");
        }
        let table_size = 56 * program_headers_count;
        if program_headers_offset > usize::MAX - table_size {
            return Err("ELF table overflow");
        }
        if program_headers_offset + table_size > bytes.len() {
            return Err("truncated ELF program header table");
        }
        let entry = read_u64(bytes, 24)?;
        Ok(Image {
            bytes,
            entry,
            program_headers_offset,
            program_headers_count,
            program_header_size,
        })
    }

    /// The `PT_LOAD` segments, in program header order.
    pub fn load_segments(&self) -> (r: Result<Vec<Segment>, &'static str>)
        requires
            self.wf(),
        ensures
            r matches Ok(v) ==> segments_upto(
                self.data(),
                self.header().table_offset,
                self.header().table_count,
            ) == Ok::<Seq<Segment>, &'static str>(v@),
            r matches Err(e) ==> segments_upto(
                self.data(),
                self.header().table_offset,
                self.header().table_count,
            ) == Err::<Seq<Segment>, &'static str>(e),
    {
        let ghost b = self.bytes@;
        let len = self.bytes.len();
        let base = self.program_headers_offset;
        let count = self.program_headers_count;
        let mut segments: Vec<Segment> = Vec::new();
        let mut index: usize = 0;
        while index < count
            invariant
                b == self.bytes@,
                len == b.len(),
                base == self.program_headers_offset,
                count == self.program_headers_count,
                self.program_header_size == 56,
                base + 56 * count <= b.len(),
                index <= count,
                segments_upto(b, base as int, index as int) == Ok::<Seq<Segment>, &'static str>(
                    segments@,
                ),
            decreases count - index,
        {
            assert(base + 56 * index + 56 <= b.len()) by (nonlinear_arith)
                requires
                    base + 56 * count <= b.len(),
                    index < count,
            ;
            let offset = base + index * self.program_header_size;
            assert(offset == base + 56 * index);
            proof {
                lemma_le_bounds(b, offset as int);
                lemma_le_bounds(b, offset + 8);
                lemma_le_bounds(b, offset + 16);
                lemma_le_bounds(b, offset + 32);
                lemma_le_bounds(b, offset + 40);
            }
            let step = segment_from(self.bytes, offset);
            match step {
                Err(e) => {
                    proof {
                        lemma_segments_err_stays(b, base as int, index + 1, count as int);
                    }
                    return Err(e);
                },
                Ok(None) => {},
                Ok(Some(s)) => {
                    segments.push(s);
                },
            }
            index += 1;
        }
        Ok(segments)
    }
}

/// A header is accepted only for a little-endian ELF64 x86_64 executable
/// ("\x7fELF", class 2, data 1, type 2, machine 62) whose program header
/// table of 56-byte entries lies inside the file; the image then starts at
/// the word at offset 24 and reads its table from the offset at 32 with
/// the count at 56.
pub proof fn lemma_accepted_elf(b: Seq<u8>)
    ensures
        parse_elf(b) matches Ok(h) ==> {
            &&& b.len() >= 64
            &&& b[0] == 0x7f && b[1] == 0x45 && b[2] == 0x4c && b[3] == 0x46
            &&& b[4] == 2 && b[5] == 1
            &&& le16(b, 16) == 2 && le16(b, 18) == 62
            &&& le16(b, 54) == 56
            &&& h.entry == le64(b, 24) as u64
            &&& h.table_offset == le64(b, 32)
            &&& h.table_count == le16(b, 56)
            &&& h.table_offset + 56 * h.table_count <= b.len()
        },
{
}

/// How many of the first `n` program headers of the table at `base` are
/// `PT_LOAD` (type 1).
pub open spec fn pt_load_count(b: Seq<u8>, base: int, n: int) -> int
    decreases n,
{
    if n <= 0 {
        0
    } else {
        pt_load_count(b, base, n - 1) + if le32(b, base + 56 * (n - 1)) == 1 {
            1int
        } else {
            0int
        }
    }
}

/// The segment the program header at `h` describes, read field by field.
pub open spec fn header_segment(b: Seq<u8>, h: int) -> Segment {
    Segment {
        virtual_address: le64(b, h + 16) as u64,
        file_offset: le64(b, h + 8) as usize,
        file_size: le64(b, h + 32) as usize,
        memory_size: le64(b, h + 40) as usize,
        flags: le32(b, h + 4) as u32,
    }
}

/// No header count is negative.
proof fn lemma_pt_load_count_nonneg(b: Seq<u8>, base: int, n: int)
    ensures
        pt_load_count(b, base, n) >= 0,
    decreases n,
{
    if n > 0 {
        lemma_pt_load_count_nonneg(b, base, n - 1);
    }
}

/// Headers before `j` count no more than the headers before `j`'s
/// successor, and a `PT_LOAD` header at `i < j` is counted before `j`.
proof fn lemma_pt_load_count_grows(b: Seq<u8>, base: int, i: int, j: int)
    requires
        0 <= i < j,
    ensures
        pt_load_count(b, base, i) + (if le32(b, base + 56 * i) == 1 {
            1int
        } else {
            0int
        }) <= pt_load_count(b, base, j),
    decreases j - i,
{
    if j > i + 1 {
        lemma_pt_load_count_grows(b, base, i, j - 1);
    }
}

/// Loading keeps every `PT_LOAD` program header and only those, in table
/// order: when the table is accepted, the segments are as many as the
/// `PT_LOAD` headers among the first `n`, and the `PT_LOAD` header at index
/// `i` gives the segment at its rank among them, with that header's own
/// address, offset, sizes and flags.
pub proof fn lemma_one_segment_per_load_header(b: Seq<u8>, base: int, n: int)
    ensures
        segments_upto(b, base, n) matches Ok(v) ==> {
            &&& v.len() == pt_load_count(b, base, n)
            &&& forall|i: int|
                0 <= i < n && le32(b, base + 56 * i) == 1 ==> v[pt_load_count(b, base, i)]
                    == header_segment(b, base + 56 * i)
        },
    decreases n,
{
    if n > 0 {
        lemma_one_segment_per_load_header(b, base, n - 1);
        let h = base + 56 * (n - 1);
        match segments_upto(b, base, n - 1) {
            Err(_) => {},
            Ok(s) => {
                match segment_at(b, h) {
                    Err(_) => {},
                    Ok(None) => {
                        assert forall|i: int| 0 <= i < n && le32(b, base + 56 * i) == 1 implies s[pt_load_count(b, base, i)]
                            == header_segment(b, base + 56 * i) by {
                            if i == n - 1 {
                                assert(le32(b, h) == 1);
                                assert(false);
                            }
                        }
                    },
                    Ok(Some(g)) => {
                        let v = s.push(g);
                        assert(le32(b, h) == 1);
                        assert(g == header_segment(b, h));
                        assert forall|i: int| 0 <= i < n && le32(b, base + 56 * i) == 1 implies v[pt_load_count(b, base, i)]
                            == header_segment(b, base + 56 * i) by {
                            if i < n - 1 {
                                lemma_pt_load_count_grows(b, base, i, n - 1);
                                lemma_pt_load_count_nonneg(b, base, i);
                                assert(s[pt_load_count(b, base, i)] == header_segment(b, base + 56 * i));
                                assert(v[pt_load_count(b, base, i)] == s[pt_load_count(b, base, i)]);
                            } else {
                                assert(pt_load_count(b, base, i) == s.len());
                            }
                        }
                    },
                }
            },
        }
    }
}

/// Once a program header is refused, later ones do not matter.
proof fn lemma_segments_err_stays(b: Seq<u8>, base: int, i: int, n: int)
    requires
        0 <= i <= n,
        segments_upto(b, base, i) is Err,
    ensures
        segments_upto(b, base, n) == segments_upto(b, base, i),
    decreases n - i,
{
    if n > i {
        lemma_segments_err_stays(b, base, i, n - 1);
    }
}

/// Decodes the program header at `offset`.
fn segment_from(bytes: &[u8], offset: usize) -> (r: Result<Option<Segment>, &'static str>)
    requires
        offset + 56 <= bytes@.len(),
    ensures
        r == segment_at(bytes@, offset as int),
{
    let len = bytes.len();
    assert(offset + 56 <= len);
    proof {
        lemma_le_bounds(bytes@, offset + 8);
        lemma_le_bounds(bytes@, offset + 16);
        lemma_le_bounds(bytes@, offset + 32);
        lemma_le_bounds(bytes@, offset + 40);
    }
    if read_u32(bytes, offset)? != 1 {
        return Ok(None);
    }
    let raw_offset = read_u64(bytes, offset + 8)?;
    if raw_offset > usize::MAX as u64 {
        return Err("ELF offset exceeds usize");
    }
    let file_offset = raw_offset as usize;
    let virtual_address = read_u64(bytes, offset + 16)?;
    let raw_file_size = read_u64(bytes, offset + 32)?;
    if raw_file_size > usize::MAX as u64 {
        return Err("ELF size exceeds usize");
    }
    let file_size = raw_file_size as usize;
    let raw_memory_size = read_u64(bytes, offset + 40)?;
    if raw_memory_size > usize::MAX as u64 {
        return Err("ELF size exceeds usize");
    }
    let memory_size = raw_memory_size as usize;
    if memory_size < file_size || virtual_address < 0xffff_8000_0000_0000 {
        return Err("PT_LOAD segment is not a valid higher-half Limine segment");
    }
    if virtual_address % 4096 != 0 || file_offset % 4096 != 0 {
        return Err("PT_LOAD segments must be page aligned");
    }
    if file_offset > usize::MAX - file_size {
        return Err("ELF segment overflow");
    }
    if file_offset + file_size > bytes.len() {
        return Err("truncated ELF segment");
    }
    let flags = read_u32(bytes, offset + 4)?;
    Ok(Some(Segment { virtual_address, file_offset, file_size, memory_size, flags }))
}

/// `segment` after it was copied to `physical_address`.
pub fn loaded_segment(segment: &Segment, physical_address: u64) -> (r: LoadedSegment)
    ensures
        r == (LoadedSegment {
            virtual_address: segment.virtual_address,
            physical_address,
            length: segment.memory_size,
            flags: segment.flags,
            file_offset: segment.file_offset,
            file_size: segment.file_size,
        }),
{
    LoadedSegment {
        virtual_address: segment.virtual_address,
        physical_address,
        length: segment.memory_size,
        flags: segment.flags,
        file_offset: segment.file_offset,
        file_size: segment.file_size,
    }
}

/// A kernel needs at least one loaded segment.
pub fn require_segments(loaded: &[LoadedSegment]) -> (r: Result<(), &'static str>)
    ensures
        loaded@.len() == 0 ==> r == Err::<(), &'static str>("ELF has no PT_LOAD segments"),
        loaded@.len() > 0 ==> r == Ok::<(), &'static str>(()),
{
    if loaded.len() == 0 {
        return Err("ELF has no PT_LOAD segments");
    }
    Ok(())
}

/// The number of 4 KiB pages that hold `bytes` bytes; zero bytes, or a
/// size whose rounding overflows, is an error.
pub fn pages_for(bytes: usize) -> (r: Result<usize, &'static str>)
    ensures
        r == pages_for_spec(bytes),
{
    if bytes == 0 || bytes > usize::MAX - 4095 {
        return Err("invalid empty or oversized ELF segment");
    }
    Ok((bytes + 4095) / 4096)
}

fn read_u16(bytes: &[u8], offset: usize) -> (r: Result<u16, &'static str>)
    ensures
        offset + 2 <= bytes@.len() ==> r == Ok::<u16, &'static str>(le16(bytes@, offset as int) as u16),
        offset + 2 > bytes@.len() ==> r == Err::<u16, &'static str>("truncated ELF header"),
{
    if offset > bytes.len() || bytes.len() - offset < 2 {
        return Err("truncated ELF header");
    }
    Ok(u16_at(bytes, offset))
}

fn read_u32(bytes: &[u8], offset: usize) -> (r: Result<u32, &'static str>)
    ensures
        offset + 4 <= bytes@.len() ==> r == Ok::<u32, &'static str>(le32(bytes@, offset as int) as u32),
        offset + 4 > bytes@.len() ==> r == Err::<u32, &'static str>("truncated ELF header"),
{
    if offset > bytes.len() || bytes.len() - offset < 4 {
        return Err("truncated ELF header");
    }
    Ok(u32_at(bytes, offset))
}

fn read_u64(bytes: &[u8], offset: usize) -> (r: Result<u64, &'static str>)
    ensures
        offset + 8 <= bytes@.len() ==> r == Ok::<u64, &'static str>(le64(bytes@, offset as int) as u64),
        offset + 8 > bytes@.len() ==> r == Err::<u64, &'static str>("truncated ELF header"),
{
    if offset > bytes.len() || bytes.len() - offset < 8 {
        return Err("truncated ELF header");
    }
    Ok(u64_at(bytes, offset))
}

} // verus!
