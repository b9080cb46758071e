//! The firmware's boot logo: the ACPI Boot Graphics Resource Table (BGRT)
//! says where the bitmap the firmware painted lives and where it was drawn,
//! and the bitmap is an uncompressed 24- or 32-bit BMP.
//!
//! The caller copies the ACPI structures and the bitmap out of firmware
//! memory; this module reads them.

use vstd::prelude::*;
use crate::bytes::{le16, le32, le64, lemma_le_bounds, u16_at, u32_at, u64_at};
use crate::spinner::Pixel;

verus! {

/// Size of the BMP file header.
pub const BMP_FILE_HEADER_SIZE: usize = 14;
/// Size of the BMP info header that follows it.
pub const BMP_INFO_HEADER_SIZE: usize = 40;
/// Size of an ACPI system description table header.
pub const SDT_HEADER_SIZE: usize = 36;
/// Size of the RSDP structure (ACPI 2.0).
pub const RSDP_SIZE: usize = 36;
/// Size of the BGRT table.
pub const BGRT_SIZE: usize = 56;

/// A raster image ready to be copied onto the framebuffer.
#[derive(Debug)]
pub struct Logo {
    pub x: usize,
    pub y: usize,
    pub width: usize,
    pub height: usize,
    /// Row-major pixels, top row first.
    pub pixels: Vec<Pixel>,
}

/// What the BGRT says about the logo.
#[derive(Clone, Copy, Debug, PartialEq, Eq, Structural)]
pub struct Bgrt {
    pub image_address: u64,
    pub offset_x: u32,
    pub offset_y: u32,
}

// ---------------------------------------------------------------------------
// BMP
// ---------------------------------------------------------------------------

/// The signed 32-bit value at `o`.
pub open spec fn le_i32(b: Seq<u8>, o: int) -> i32 {
    (le32(b, o) as u32) as i32
}

/// Bytes per pixel for a bit count, if it is supported.
pub open spec fn bytes_per_pixel(bit_count: int) -> Option<int> {
    if bit_count == 24 {
        Some(3)
    } else if bit_count == 32 {
        Some(4)
    } else {
        None
    }
}

/// The decoded BMP header: width, height, whether rows are stored top
/// down, bytes per pixel, the padded row size, and where pixels start.
pub struct BmpLayout {
    pub width: int,
    pub height: int,
    pub top_down: bool,
    pub bpp: int,
    pub stride: int,
    pub data: int,
}

/// The layout of the BMP in `b`, if it is an uncompressed 24- or 32-bit
/// bitmap with non-zero size.
pub open spec fn bmp_layout(b: Seq<u8>) -> Option<BmpLayout> {
    if b.len() < 54 || le16(b, 0) != 0x4d42 || le32(b, 30) != 0 {
        None
    } else {
        match bytes_per_pixel(le16(b, 28)) {
            None => None,
            Some(bpp) => {
                let width = (le_i32(b, 18) as usize) as int;
                let h = le_i32(b, 22);
                if width == 0 || h == 0 {
                    None
                } else {
                    let height = if h < 0 {
                        -(h as int)
                    } else {
                        h as int
                    };
                    Some(
                        BmpLayout {
                            width,
                            height,
                            top_down: h < 0,
                            bpp,
                            stride: (width * bpp + 3) / 4 * 4,
                            data: le32(b, 10),
                        },
                    )
                }
            },
        }
    }
}

/// The size arithmetic of the decoder stays within `usize`.
pub open spec fn bmp_fits(b: Seq<u8>) -> bool {
    match bmp_layout(b) {
        None => true,
        Some(l) => l.width * l.bpp + 3 <= usize::MAX && l.width * l.height <= usize::MAX && l.data
            + l.height * l.stride <= usize::MAX,
    }
}

/// The pixel at `row`, `col` of the image.
pub open spec fn bmp_pixel(b: Seq<u8>, l: BmpLayout, row: int, col: int) -> Pixel {
    let src_row = if l.top_down {
        row
    } else {
        l.height - 1 - row
    };
    let p = l.data + src_row * l.stride + col * l.bpp;
    Pixel { red: b[p + 2], green: b[p + 1], blue: b[p] }
}

/// Whether `logo` is the image of `b`, placed at `(x, y)`.
pub open spec fn decoded_as(b: Seq<u8>, l: BmpLayout, x: usize, y: usize, logo: Logo) -> bool {
    &&& logo.x == x
    &&& logo.y == y
    &&& logo.width == l.width
    &&& logo.height == l.height
    &&& logo.pixels@.len() == l.width * l.height
    &&& forall|k: int|
        0 <= k < l.width * l.height ==> #[trigger] logo.pixels@[k] == bmp_pixel(
            b,
            l,
            k / l.width,
            k % l.width,
        )
}

/// Checks the size arithmetic of the bitmap in `bytes` before decoding.
pub fn bmp_fits_check(bytes: &[u8]) -> (r: bool)
    ensures
        r == bmp_fits(bytes@),
{
    match layout_of(bytes) {
        None => true,
        Some((width, height, _top_down, bpp, data)) => {
            let w = width as u128;
            let h = height as u128;
            assert(w * (bpp as u128) <= 4 * 0xffff_ffff_ffff_ffff) by (nonlinear_arith)
                requires
                    w <= 0xffff_ffff_ffff_ffff,
                    bpp <= 4,
            ;
            let wb = w * (bpp as u128) + 3;
            if wb > usize::MAX as u128 {
                return false;
            }
            assert(w * h <= 0xffff_ffff_ffff_ffff * 0x8000_0000) by (nonlinear_arith)
                requires
                    w <= 0xffff_ffff_ffff_ffff,
                    h <= 0x8000_0000,
            ;
            if w * h > usize::MAX as u128 {
                return false;
            }
            let stride = wb / 4 * 4;
            assert(h * stride <= 0x8000_0000 * 0x1_0000_0000_0000_0003) by (nonlinear_arith)
                requires
                    h <= 0x8000_0000,
                    stride <= 0x1_0000_0000_0000_0003,
            ;
            (data as u128) + h * stride <= usize::MAX as u128
        },
    }
}

/// The header fields of the bitmap: width, height, top-down, bytes per
/// pixel, pixel data offset.
fn layout_of(bytes: &[u8]) -> (r: Option<(usize, usize, bool, usize, usize)>)
    ensures
        match bmp_layout(bytes@) {
            None => r is None,
            Some(l) => r matches Some(t) && t.0 == l.width && t.1 == l.height && t.2 == l.top_down
                && t.3 == l.bpp && t.4 == l.data && l.height <= 0x8000_0000 && (t.3 == 3 || t.3 == 4),
        },
{
    if bytes.len() < 54 {
        return None;
    }
    proof {
        lemma_le_bounds(bytes@, 0);
        lemma_le_bounds(bytes@, 10);
        lemma_le_bounds(bytes@, 18);
        lemma_le_bounds(bytes@, 22);
        lemma_le_bounds(bytes@, 28);
        lemma_le_bounds(bytes@, 30);
    }
    if u16_at(bytes, 0) != 0x4d42 || u32_at(bytes, 30) != 0 {
        return None;
    }
    let bpp: usize = match u16_at(bytes, 28) {
        24 => 3,
        32 => 4,
        _ => {
            return None;
        },
    };
    let width = (u32_at(bytes, 18) as i32) as usize;
    let h = u32_at(bytes, 22) as i32;
    if width == 0 || h == 0 {
        return None;
    }
    let height: usize = if h < 0 {
        (-(h as i64)) as usize
    } else {
        h as usize
    };
    let data = u32_at(bytes, 10) as usize;
    Some((width, height, h < 0, bpp, data))
}

/// Decodes an uncompressed 24- or 32-bit BMP into row-major pixels, top row
/// first, to be drawn at `(offset_x, offset_y)`. `None` when the header is
/// not such a bitmap or the pixel data is not all inside `bytes`.
pub fn decode_bmp(bytes: &[u8], offset_x: usize, offset_y: usize) -> (r: Option<Logo>)
    requires
        bmp_fits(bytes@),
    ensures
        match bmp_layout(bytes@) {
            None => r is None,
            Some(l) => if l.data + l.height * l.stride > bytes@.len() {
                r is None
            } else {
                r matches Some(logo) && decoded_as(bytes@, l, offset_x, offset_y, logo)
            },
        },
{
    let (width, height, top_down, bpp, data) = match layout_of(bytes) {
        None => {
            return None;
        },
        Some(t) => t,
    };
    let ghost l = bmp_layout(bytes@)->0;
    let stride = (width * bpp + 3) / 4 * 4;
    assert(height * stride <= usize::MAX) by (nonlinear_arith)
        requires
            data + height * stride <= usize::MAX,
            data >= 0,
    ;
    if height * stride > bytes.len() || data > bytes.len() - height * stride {
        return None;
    }
    assert(stride >= width * bpp) by (nonlinear_arith)
        requires
            stride == (width * bpp + 3) / 4 * 4,
    ;
    let mut pixels: Vec<Pixel> = Vec::new();
    let mut row: usize = 0;
    while row < height
        invariant
            l == bmp_layout(bytes@)->0,
            l.width == width,
            l.height == height,
            l.top_down == top_down,
            l.bpp == bpp,
            l.data == data,
            l.stride == stride,
            stride >= width * bpp,
            bpp == 3 || bpp == 4,
            width * height <= usize::MAX,
            data + height * stride <= bytes@.len(),
            bytes@.len() <= usize::MAX,
            row <= height,
            pixels@.len() == row * width,
            forall|k: int|
                0 <= k < row * width ==> #[trigger] pixels@[k] == bmp_pixel(
                    bytes@,
                    l,
                    k / l.width,
                    k % l.width,
                ),
        decreases height - row,
    {
        let src_row = if top_down {
            row
        } else {
            height - 1 - row
        };
        assert((src_row + 1) * stride <= height * stride) by (nonlinear_arith)
            requires
                src_row + 1 <= height,
        ;
        assert(src_row * stride + stride == (src_row + 1) * stride) by (nonlinear_arith);
        let row_start = data + src_row * stride;
        let mut col: usize = 0;
        while col < width
            invariant
                l == bmp_layout(bytes@)->0,
                l.width == width,
                l.height == height,
                l.top_down == top_down,
                l.bpp == bpp,
                l.data == data,
                l.stride == stride,
                stride >= width * bpp,
                bpp == 3 || bpp == 4,
                width * height <= usize::MAX,
                row < height,
                src_row == (if top_down {
                    row
                } else {
                    (height - 1 - row) as usize
                }),
                row_start == data + src_row * stride,
                row_start + stride <= bytes@.len(),
                bytes@.len() <= usize::MAX,
                col <= width,
                pixels@.len() == row * width + col,
                forall|k: int|
                    0 <= k < row * width + col ==> #[trigger] pixels@[k] == bmp_pixel(
                        bytes@,
                        l,
                        k / l.width,
                        k % l.width,
                    ),
            decreases width - col,
        {
            assert((col + 1) * bpp <= width * bpp) by (nonlinear_arith)
                requires
                    col + 1 <= width,
            ;
            assert(col * bpp + bpp == (col + 1) * bpp) by (nonlinear_arith);
            let p = row_start + col * bpp;
            let pixel = Pixel { red: bytes[p + 2], green: bytes[p + 1], blue: bytes[p] };
            proof {
                let k = row * width + col;
                assert(row * width + col < width * height) by (nonlinear_arith)
                    requires
                        row < height,
                        col < width,
                ;
                vstd::arithmetic::div_mod::lemma_fundamental_div_mod_converse(
                    k as int,
                    width as int,
                    row as int,
                    col as int,
                );
                assert(pixel == bmp_pixel(bytes@, l, k / l.width, k % l.width));
            }
            pixels.push(pixel);
            col += 1;
        }
        assert((row + 1) * width == row * width + width) by (nonlinear_arith);
        row += 1;
    }
    assert(row * width == l.width * l.height) by (nonlinear_arith)
        requires
            row == l.height,
            width == l.width,
    ;
    Some(Logo { x: offset_x, y: offset_y, width, height, pixels })
}

/// Decodes a BMP held in memory the loader owns (an embedded splash image),
/// drawn at the origin.
pub fn decode_bmp_bytes(bytes: &[u8]) -> (r: Option<Logo>)
    requires
        bmp_fits(bytes@),
    ensures
        bytes@.len() < BMP_FILE_HEADER_SIZE + BMP_INFO_HEADER_SIZE ==> r is None,
        match bmp_layout(bytes@) {
            None => r is None,
            Some(l) => if l.data + l.height * l.stride > bytes@.len() {
                r is None
            } else {
                r matches Some(logo) && decoded_as(bytes@, l, 0, 0, logo)
            },
        },
{
    if bytes.len() < BMP_FILE_HEADER_SIZE + BMP_INFO_HEADER_SIZE {
        return None;
    }
    decode_bmp(bytes, 0, 0)
}

/// How many bytes of a bitmap the decoder reads, given its first 54 bytes.
pub fn bmp_extent(header: &[u8]) -> (r: Option<usize>)
    requires
        bmp_fits(header@),
    ensures
        match bmp_layout(header@) {
            None => r is None,
            Some(l) => r == Some((l.data + l.height * l.stride) as usize),
        },
{
    let (width, height, _top_down, bpp, data) = layout_of(header)?;
    let stride = (width * bpp + 3) / 4 * 4;
    assert(height * stride <= usize::MAX) by (nonlinear_arith)
        requires
            data + height * stride <= usize::MAX,
            data >= 0,
    ;
    Some(data + height * stride)
}

// ---------------------------------------------------------------------------
// ACPI
// ---------------------------------------------------------------------------

/// Whether `b` starts with the bytes of `sig`.
pub open spec fn signature_is(b: Seq<u8>, sig: Seq<u8>) -> bool {
    sig.len() <= b.len() && b.subrange(0, sig.len() as int) == sig
}

/// The root table an RSDP points to, and the size of that table's entries:
/// the XSDT (8-byte entries) from revision 2 on when it is set, else the
/// RSDT (4-byte entries) when set.
pub open spec fn rsdp_root_spec(b: Seq<u8>) -> Option<(u64, usize)> {
    if !signature_is(b, seq![0x52u8, 0x53, 0x44, 0x20, 0x50, 0x54, 0x52, 0x20]) {
        None
    } else if b[15] >= 2 && le64(b, 24) != 0 {
        Some((le64(b, 24) as u64, 8))
    } else if le32(b, 16) != 0 {
        Some((le32(b, 16) as u64, 4))
    } else {
        None
    }
}

/// The root table named by the RSDP in `rsdp` ("RSD PTR ").
pub fn rsdp_root(rsdp: &[u8]) -> (r: Option<(u64, usize)>)
    requires
        rsdp@.len() >= RSDP_SIZE,
    ensures
        r == rsdp_root_spec(rsdp@),
{
    proof {
        lemma_le_bounds(rsdp@, 16);
        lemma_le_bounds(rsdp@, 24);
    }
    let sig: [u8; 8] = [0x52, 0x53, 0x44, 0x20, 0x50, 0x54, 0x52, 0x20];
    let mut i: usize = 0;
    while i < 8
        invariant
            i <= 8,
            rsdp@.len() >= 36,
            sig@ == seq![0x52u8, 0x53, 0x44, 0x20, 0x50, 0x54, 0x52, 0x20],
            forall|j: int| 0 <= j < i ==> rsdp@[j] == sig@[j],
        decreases 8 - i,
    {
        if rsdp[i] != sig[i] {
            assert(rsdp@.subrange(0, 8)[i as int] != sig@[i as int]);
            return None;
        }
        i += 1;
    }
    assert(rsdp@.subrange(0, 8) =~= sig@);
    let xsdt = u64_at(rsdp, 24);
    let rsdt = u32_at(rsdp, 16);
    if rsdp[15] >= 2 && xsdt != 0 {
        Some((xsdt, 8))
    } else if rsdt != 0 {
        Some((rsdt as u64, 4))
    } else {
        None
    }
}

/// The number of entries of a root table, from its header's length.
pub fn sdt_entry_count(header: &[u8], entry_size: usize) -> (r: usize)
    requires
        header@.len() >= SDT_HEADER_SIZE,
        entry_size == 4 || entry_size == 8,
    ensures
        r == (if le32(header@, 4) > 36 {
            le32(header@, 4) - 36
        } else {
            0
        }) / (entry_size as int),
{
    proof {
        lemma_le_bounds(header@, 4);
    }
    let length = u32_at(header, 4) as usize;
    let table_len = if length > SDT_HEADER_SIZE {
        length - SDT_HEADER_SIZE
    } else {
        0
    };
    table_len / entry_size
}

/// The address in entry `index` of a root table's entries.
pub fn entry_address(entries: &[u8], index: usize, entry_size: usize) -> (r: u64)
    requires
        entry_size == 4 || entry_size == 8,
        (index + 1) * entry_size <= entries@.len(),
    ensures
        entry_size == 8 ==> r == le64(entries@, index * 8),
        entry_size == 4 ==> r == le32(entries@, index * 4),
{
    let _len = entries.len();
    assert(index * entry_size + entry_size == (index + 1) * entry_size) by (nonlinear_arith);
    if entry_size == 8 {
        u64_at(entries, index * 8)
    } else {
        u32_at(entries, index * 4) as u64
    }
}

/// The BGRT read from a table, if the table is one ("BGRT") and describes a
/// bitmap (image type 0) at a non-zero address.
pub open spec fn bgrt_spec(b: Seq<u8>) -> Option<Bgrt> {
    if !signature_is(b, seq![0x42u8, 0x47, 0x52, 0x54]) || b[39] != 0 || le64(b, 40) == 0 {
        None
    } else {
        Some(
            Bgrt {
                image_address: le64(b, 40) as u64,
                offset_x: le32(b, 48) as u32,
                offset_y: le32(b, 52) as u32,
            },
        )
    }
}

/// Reads a table as a BGRT.
pub fn parse_bgrt(table: &[u8]) -> (r: Option<Bgrt>)
    requires
        table@.len() >= BGRT_SIZE,
    ensures
        r == bgrt_spec(table@),
{
    proof {
        lemma_le_bounds(table@, 40);
        lemma_le_bounds(table@, 48);
    }
    if !(table[0] == 0x42 && table[1] == 0x47 && table[2] == 0x52 && table[3] == 0x54) {
        assert(!signature_is(table@, seq![0x42u8, 0x47, 0x52, 0x54])) by {
            let s = seq![0x42u8, 0x47, 0x52, 0x54];
            if signature_is(table@, s) {
                assert(table@.subrange(0, 4)[0] == s[0]);
                assert(table@.subrange(0, 4)[1] == s[1]);
                assert(table@.subrange(0, 4)[2] == s[2]);
                assert(table@.subrange(0, 4)[3] == s[3]);
            }
        }
        return None;
    }
    assert(table@.subrange(0, 4) =~= seq![0x42u8, 0x47, 0x52, 0x54]);
    let image_address = u64_at(table, 40);
    if table[39] != 0 || image_address == 0 {
        return None;
    }
    Some(Bgrt { image_address, offset_x: u32_at(table, 48), offset_y: u32_at(table, 52) })
}

/// Index of the first entry with key `key`, or the length.
pub open spec fn first_key(es: Seq<(u128, u64)>, key: u128) -> int
    decreases es.len(),
{
    if es.len() == 0 {
        0
    } else if es[0].0 == key {
        0
    } else {
        1 + first_key(es.drop_first(), key)
    }
}

/// `first_key` is the first match, or the length.
proof fn lemma_first_key(es: Seq<(u128, u64)>, key: u128, k: int)
    requires
        0 <= k <= es.len(),
        forall|j: int| 0 <= j < k ==> es[j].0 != key,
        k < es.len() ==> es[k].0 == key,
    ensures
        first_key(es, key) == k,
    decreases es.len(),
{
    if es.len() > 0 && k > 0 {
        let t = es.drop_first();
        assert forall|j: int| 0 <= j < k - 1 implies t[j].0 != key by {
            assert(t[j] == es[j + 1]);
        }
        lemma_first_key(t, key, k - 1);
    }
}

/// The address of the first configuration table entry with key
/// `preferred`, else of the first with `fallback`.
pub open spec fn rsdp_address_spec(es: Seq<(u128, u64)>, preferred: u128, fallback: u128) -> Option<u64> {
    if first_key(es, preferred) < es.len() {
        Some(es[first_key(es, preferred)].1)
    } else if first_key(es, fallback) < es.len() {
        Some(es[first_key(es, fallback)].1)
    } else {
        None
    }
}

/// The address of the first configuration table entry with key
/// `preferred`, else of the first with `fallback` (the ACPI 2.0 RSDP, else
/// the ACPI 1.0 one).
pub fn rsdp_address(entries: &Vec<(u128, u64)>, preferred: u128, fallback: u128) -> (r: Option<u64>)
    ensures
        r == rsdp_address_spec(entries@, preferred, fallback),
{
    let mut i: usize = 0;
    while i < entries.len()
        invariant
            i <= entries@.len(),
            forall|j: int| 0 <= j < i ==> entries@[j].0 != preferred,
        decreases entries@.len() - i,
    {
        if entries[i].0 == preferred {
            proof {
                lemma_first_key(entries@, preferred, i as int);
            }
            return Some(entries[i].1);
        }
        i += 1;
    }
    proof {
        lemma_first_key(entries@, preferred, i as int);
    }
    let mut i: usize = 0;
    while i < entries.len()
        invariant
            i <= entries@.len(),
            first_key(entries@, preferred) == entries@.len(),
            forall|j: int| 0 <= j < i ==> entries@[j].0 != fallback,
        decreases entries@.len() - i,
    {
        if entries[i].0 == fallback {
            proof {
                lemma_first_key(entries@, fallback, i as int);
            }
            return Some(entries[i].1);
        }
        i += 1;
    }
    proof {
        lemma_first_key(entries@, fallback, i as int);
    }
    None
}

/// Whether a logo of `width` x `height` at `position` fits on a screen of
/// `screen_width` x `screen_height`.
pub fn logo_fits(
    position: (usize, usize),
    width: usize,
    height: usize,
    screen_width: usize,
    screen_height: usize,
) -> (r: bool)
    requires
        position.0 + width <= usize::MAX,
        position.1 + height <= usize::MAX,
    ensures
        r == (position.0 + width <= screen_width && position.1 + height <= screen_height),
{
    !(position.0 + width > screen_width || position.1 + height > screen_height)
}

} // verus!
