use r_boot::elf::{pages_for, Image, LoadedSegment};
use r_boot::limine::{
    hhdm_address, write_responses, Limine, Response, ResponseWrite, BASE_MAGIC_0, BASE_MAGIC_1,
    COMMON_MAGIC_0, COMMON_MAGIC_1, EXECUTABLE_ADDRESS_0, EXECUTABLE_ADDRESS_1, FIRMWARE_TYPE_0,
    FIRMWARE_TYPE_1, HHDM_0, HHDM_1, HHDM_OFFSET,
};
use r_boot::paging::{PageEntry, PageTables};
use r_boot::protocol::BootProtocol;

const KERNEL_BASE: u64 = 0xffff_ffff_8000_0000;

fn put16(b: &mut [u8], at: usize, v: u16) {
    b[at..at + 2].copy_from_slice(&v.to_le_bytes());
}
fn put32(b: &mut [u8], at: usize, v: u32) {
    b[at..at + 4].copy_from_slice(&v.to_le_bytes());
}
fn put64(b: &mut [u8], at: usize, v: u64) {
    b[at..at + 8].copy_from_slice(&v.to_le_bytes());
}

/// An ELF file with two program headers: a note and one PT_LOAD segment of
/// `segment_size` bytes at file offset 4096.
fn elf(segment_vaddr: u64, segment_size: u64, total: usize) -> Vec<u8> {
    let mut b = vec![0u8; total];
    b[0..4].copy_from_slice(b"\x7fELF");
    b[4] = 2;
    b[5] = 1;
    put16(&mut b, 16, 2);
    put16(&mut b, 18, 62);
    put64(&mut b, 24, KERNEL_BASE + 0x10);
    put64(&mut b, 32, 64);
    put16(&mut b, 54, 56);
    put16(&mut b, 56, 2);
    // A PT_NOTE header, skipped.
    put32(&mut b, 64, 4);
    // The PT_LOAD header.
    let ph = 64 + 56;
    put32(&mut b, ph, 1);
    put32(&mut b, ph + 4, 5);
    put64(&mut b, ph + 8, 4096);
    put64(&mut b, ph + 16, segment_vaddr);
    put64(&mut b, ph + 32, segment_size);
    put64(&mut b, ph + 40, segment_size + 4096);
    b
}

#[test]
fn elf_parse_rejects_bad_headers() {
    assert_eq!(Image::parse(b"hello").err(), Some("kernel is not an ELF file"));
    let mut b = elf(KERNEL_BASE, 4096, 8192);
    b[4] = 1;
    assert_eq!(Image::parse(&b).err(), Some("kernel must be little-endian ELF64"));
    let mut b = elf(KERNEL_BASE, 4096, 8192);
    put16(&mut b, 16, 3);
    assert_eq!(Image::parse(&b).err(), Some("kernel must be an x86_64 ET_EXEC ELF"));
    let mut b = elf(KERNEL_BASE, 4096, 8192);
    put16(&mut b, 54, 64);
    assert_eq!(Image::parse(&b).err(), Some("unexpected ELF program header size"));
    let mut b = elf(KERNEL_BASE, 4096, 8192);
    put64(&mut b, 32, 8192 - 56);
    assert_eq!(Image::parse(&b).err(), Some("truncated ELF program header table"));
}

#[test]
fn elf_load_segments_keeps_pt_load_only() {
    let b = elf(KERNEL_BASE, 4096, 8192);
    let image = Image::parse(&b).unwrap();
    assert_eq!(image.entry, KERNEL_BASE + 0x10);
    let segments = image.load_segments().unwrap();
    assert_eq!(segments.len(), 1);
    assert_eq!(segments[0].virtual_address, KERNEL_BASE);
    assert_eq!(segments[0].file_offset, 4096);
    assert_eq!(segments[0].file_size, 4096);
    assert_eq!(segments[0].memory_size, 8192);
    assert_eq!(segments[0].flags, 5);
}

#[test]
fn elf_load_segments_rejects_bad_segments() {
    let low = elf(0x40_0000, 4096, 8192);
    assert_eq!(
        Image::parse(&low).unwrap().load_segments().err(),
        Some("PT_LOAD segment is not a valid higher-half Limine segment")
    );
    let unaligned = elf(KERNEL_BASE + 8, 4096, 8192);
    assert_eq!(
        Image::parse(&unaligned).unwrap().load_segments().err(),
        Some("PT_LOAD segments must be page aligned")
    );
    let truncated = elf(KERNEL_BASE, 8192, 8192);
    assert_eq!(
        Image::parse(&truncated).unwrap().load_segments().err(),
        Some("truncated ELF segment")
    );
}

#[test]
fn pages_for_rounds_up() {
    assert_eq!(pages_for(0), Err("invalid empty or oversized ELF segment"));
    assert_eq!(pages_for(1), Ok(1));
    assert_eq!(pages_for(4096), Ok(1));
    assert_eq!(pages_for(4097), Ok(2));
    assert_eq!(pages_for(usize::MAX), Err("invalid empty or oversized ELF segment"));
}

fn request(b: &mut [u8], at: usize, id0: u64, id1: u64) {
    put64(b, at, COMMON_MAGIC_0);
    put64(b, at + 8, COMMON_MAGIC_1);
    put64(b, at + 16, id0);
    put64(b, at + 24, id1);
}

fn kernel_with_requests() -> Vec<u8> {
    let mut b = elf(KERNEL_BASE, 4096, 8192);
    put64(&mut b, 4096, BASE_MAGIC_0);
    put64(&mut b, 4104, BASE_MAGIC_1);
    put64(&mut b, 4112, 3);
    request(&mut b, 4120, HHDM_0, HHDM_1);
    request(&mut b, 4168, EXECUTABLE_ADDRESS_0, EXECUTABLE_ADDRESS_1);
    request(&mut b, 4216, FIRMWARE_TYPE_0, FIRMWARE_TYPE_1);
    request(&mut b, 4264, 1, 2);
    b
}

fn loaded(physical: u64, file_size: usize) -> LoadedSegment {
    LoadedSegment {
        virtual_address: KERNEL_BASE,
        physical_address: physical,
        length: 8192,
        flags: 5,
        file_offset: 4096,
        file_size,
    }
}

#[test]
fn limine_requests_are_answered_in_file_order() {
    let b = kernel_with_requests();
    let image = Image::parse(&b).unwrap();
    let segments = [loaded(0x20_0000, 4096)];
    let (writes, failure) = write_responses(&b, &image, &segments, HHDM_OFFSET);
    assert_eq!(failure, None);
    assert_eq!(
        writes,
        vec![
            ResponseWrite { target: 0x20_0010, response: Response::BaseRevision },
            ResponseWrite { target: 0x20_0040, response: Response::Hhdm { offset: HHDM_OFFSET } },
            ResponseWrite {
                target: 0x20_0070,
                response: Response::ExecutableAddress {
                    physical_base: 0x20_0000,
                    virtual_base: KERNEL_BASE
                }
            },
            ResponseWrite {
                target: 0x20_00a0,
                response: Response::FirmwareType { firmware_type: 2 }
            },
        ]
    );
    assert_eq!(Limine.prepare(&b, &image, &segments, HHDM_OFFSET), (writes, None));
}

#[test]
fn limine_rejects_high_allocations_and_stray_requests() {
    let b = kernel_with_requests();
    let image = Image::parse(&b).unwrap();
    assert_eq!(
        write_responses(&b, &image, &[loaded(0x1_0000_0000, 4096)], HHDM_OFFSET),
        (vec![], Some("this basic backend currently requires kernel allocations below 4 GiB"))
    );
    // The base revision tag lies inside the short segment and is answered
    // before the HHDM request outside it stops the scan.
    assert_eq!(
        write_responses(&b, &image, &[loaded(0x20_0000, 64)], HHDM_OFFSET),
        (
            vec![ResponseWrite { target: 0x20_0010, response: Response::BaseRevision }],
            Some("Limine request is not in a loadable segment")
        )
    );
    assert_eq!(hhdm_address(0x1000, HHDM_OFFSET), 0xffff_8000_0000_1000);
}

/// The final entry that maps `address`, and the level it sits at.
fn walk(tables: &PageTables, address: u64) -> Option<(usize, u64)> {
    let mut table = 0;
    for level in 0..4 {
        let index = ((address >> (39 - 9 * level)) & 0x1ff) as usize;
        match tables.entry(table, index) {
            PageEntry::Empty => return None,
            PageEntry::Table(next) => table = next,
            PageEntry::Frame(word) => return Some((level, word)),
        }
    }
    None
}

#[test]
fn new_page_tables_map_nothing() {
    let tables = PageTables::new();
    assert_eq!(tables.table_count(), 1);
    assert_eq!(walk(&tables, 0), None);
    assert_eq!(walk(&tables, KERNEL_BASE), None);
}

#[test]
fn identity_and_hhdm_windows_use_2m_pages() {
    let mut tables = PageTables::new();
    tables.map_identity_first_4g();
    tables.map_hhdm_first_4g(HHDM_OFFSET);
    assert_eq!(walk(&tables, 0x1234_5678), Some((2, 0x1220_0000 | 0x83)));
    assert_eq!(walk(&tables, 0xffff_f000), Some((2, 0xffe0_0000 | 0x83)));
    assert_eq!(walk(&tables, 0x1_0000_0000), None);
    assert_eq!(walk(&tables, HHDM_OFFSET + 0x40_1234), Some((2, 0x40_0000 | 0x83)));
}

#[test]
fn map_range_uses_4k_pages_with_elf_permissions() {
    let mut tables = PageTables::new();
    tables.map_identity_first_4g();
    assert!(tables.can_map_range(KERNEL_BASE, 0x20_0000, 0x1800));
    assert_eq!(tables.map_range(KERNEL_BASE, 0x20_0000, 0x1800, 5), Ok(()));
    assert_eq!(walk(&tables, KERNEL_BASE), Some((3, 0x20_0000 | 1)));
    assert_eq!(walk(&tables, KERNEL_BASE + 0x1fff), Some((3, 0x20_1000 | 1)));
    assert_eq!(walk(&tables, KERNEL_BASE + 0x2000), None);
    assert_eq!(tables.map_range(KERNEL_BASE + 0x10_0000, 0x30_0000, 1, 6), Ok(()));
    assert_eq!(
        walk(&tables, KERNEL_BASE + 0x10_0000),
        Some((3, 0x30_0000 | 3 | 0x8000_0000_0000_0000))
    );
    // The walk to the identity window is untouched.
    assert_eq!(walk(&tables, 0x1234_5678), Some((2, 0x1220_0000 | 0x83)));
}

#[test]
fn map_range_refusals() {
    let mut tables = PageTables::new();
    tables.map_identity_first_4g();
    assert!(!tables.can_map_range(0x1000, 0x1000, 0x1000));
    assert!(!tables.can_map_range(u64::MAX - 0xfff, 0, 0x2000));
    assert!(tables.can_map_range(0, 0, usize::MAX));
    assert_eq!(
        tables.map_range(KERNEL_BASE, 0, usize::MAX, 5),
        Err("mapping length overflow")
    );
}

#[test]
fn elf_entry_point_is_the_word_at_offset_24() {
    let mut h = [0u8; 64];
    h[0..4].copy_from_slice(b"\x7fELF");
    h[4] = 2;
    h[5] = 1;
    h[16] = 2;
    h[18] = 62;
    h[24..32].copy_from_slice(&0xffff_ffff_8000_1000u64.to_le_bytes());
    h[54] = 56;
    let image = Image::parse(&h).unwrap();
    assert_eq!(image.entry, 0xffff_ffff_8000_1000);
    assert_eq!(image.entry_point(), 0xffff_ffff_8000_1000);
    assert!(image.load_segments().unwrap().is_empty());
}
