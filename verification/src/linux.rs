//! Linux x86 EFI handover protocol (64-bit entry).
//!
//! The kernel's EFI stub remains in control of UEFI boot services. This
//! module checks the setup header and works out every value that goes into
//! `boot_params` (the setup fields and `screen_info`) and the handover entry
//! address; the caller loads the image, allocates memory and jumps.

use vstd::prelude::*;
use vstd::std_specs::bits::{
    axiom_u32_leading_zeros, axiom_u32_trailing_zeros, u32_leading_zeros, u32_trailing_zeros,
};
use crate::bytes::{le16, le32, u16_at, u32_at};

verus! {

pub const SETUP_HEADER: usize = 0x1f1;
pub const HEADER_MAGIC: u32 = 0x5372_6448;
pub const MIN_PROTOCOL_VERSION: u16 = 0x020b;
pub const XLF_EFI_HANDOVER_64: u16 = 8;
pub const BOOT_PARAMS_SIZE: usize = 4096;
pub const PAGE_SIZE: usize = 4096;
/// The command line used when an entry gives none.
pub const DEFAULT_CMDLINE: &'static str = "console=ttyS0 modules=loop,squashfs ip=dhcp alpine_repo=http://dl-cdn.alpinelinux.org/alpine/latest-stable/main modloop=http://dl-cdn.alpinelinux.org/alpine/latest-stable/releases/x86_64/netboot/modloop-virt";

// Offsets into the bzImage, and into the boot_params zero page after the
// setup header was copied there.
pub const TYPE_OF_LOADER: usize = 0x210;
pub const CODE32_START: usize = 0x214;
pub const RAMDISK_IMAGE: usize = 0x218;
pub const RAMDISK_SIZE: usize = 0x21c;
pub const CMD_LINE_PTR: usize = 0x228;
pub const CMDLINE_SIZE: usize = 0x238;
pub const XLOADFLAGS: usize = 0x236;
pub const HANDOVER_OFFSET: usize = 0x264;

// `struct screen_info`, at offset 0 of boot_params.
pub const ORIG_VIDEO_ISVGA: usize = 0x0f;
pub const LFB_WIDTH: usize = 0x12;
pub const LFB_HEIGHT: usize = 0x14;
pub const LFB_DEPTH: usize = 0x16;
pub const LFB_BASE: usize = 0x18;
pub const LFB_SIZE: usize = 0x1c;
pub const LFB_LINELENGTH: usize = 0x24;
pub const RED_SIZE: usize = 0x26;
pub const RED_POS: usize = 0x27;
pub const GREEN_SIZE: usize = 0x28;
pub const GREEN_POS: usize = 0x29;
pub const BLUE_SIZE: usize = 0x2a;
pub const BLUE_POS: usize = 0x2b;
pub const RSVD_SIZE: usize = 0x2c;
pub const RSVD_POS: usize = 0x2d;
pub const PAGES: usize = 0x32;
pub const CAPABILITIES: usize = 0x36;
pub const EXT_LFB_BASE: usize = 0x3a;

pub const VIDEO_TYPE_EFI: u8 = 0x70;
pub const VIDEO_CAPABILITY_SKIP_QUIRKS: u32 = 1;
pub const VIDEO_CAPABILITY_64BIT_BASE: u32 = 2;

/// What the setup header tells the loader.
#[derive(Clone, Copy, Debug, PartialEq, Eq, Structural)]
pub struct Header {
    /// Bytes of real-mode setup code, boot sector included.
    pub setup_bytes: usize,
    /// Offset of the EFI handover entry from the start of the protected-mode
    /// kernel.
    pub handover_offset: usize,
    /// Bytes of setup header copied into `boot_params`.
    pub size: usize,
}

/// A little-endian store into `boot_params`.
#[derive(Clone, Copy, Debug, PartialEq, Eq, Structural)]
pub enum ParamWrite {
    Byte { offset: usize, value: u8 },
    Half { offset: usize, value: u16 },
    Word { offset: usize, value: u32 },
}

/// The pixel layout of the GOP framebuffer.
#[derive(Clone, Copy, Debug, PartialEq, Eq, Structural)]
pub enum PixelFormat {
    Rgb,
    Bgr,
    Bitmask,
    BltOnly,
}

/// The channel masks of a `Bitmask` framebuffer.
#[derive(Clone, Copy, Debug, PartialEq, Eq, Structural)]
pub struct PixelBitmask {
    pub red: u32,
    pub green: u32,
    pub blue: u32,
    pub reserved: u32,
}

/// The current GOP mode.
#[derive(Clone, Copy, Debug, PartialEq, Eq, Structural)]
pub struct ModeInfo {
    pub format: PixelFormat,
    pub bitmask: Option<PixelBitmask>,
    pub width: usize,
    pub height: usize,
    /// Pixels per scan line.
    pub stride: usize,
}

// ---------------------------------------------------------------------------
// Specification
// ---------------------------------------------------------------------------

/// Setup sectors, with the historical meaning of 0 as 4.
pub open spec fn setup_sectors(b: Seq<u8>) -> int {
    if b[0x1f1] == 0 {
        4
    } else {
        b[0x1f1] as int
    }
}

/// The checks of `Header::parse`, in the order it makes them.
pub open spec fn parse_header(b: Seq<u8>) -> Result<Header, &'static str> {
    if b.len() < 0x206 {
        Err("truncated Linux header")
    } else if le32(b, 0x202) != HEADER_MAGIC {
        Err("vmlinuz does not contain a Linux setup header")
    } else if b.len() < 0x208 {
        Err("truncated Linux header")
    } else if le16(b, 0x206) < MIN_PROTOCOL_VERSION {
        Err("Linux kernel lacks EFI handover protocol support")
    } else if b.len() < 0x238 {
        Err("truncated Linux header")
    } else if (le16(b, 0x236) / 8) % 2 == 0 {
        Err("Linux kernel lacks 64-bit EFI handover support")
    } else if b.len() < 0x268 {
        Err("truncated Linux header")
    } else if le32(b, 0x264) == 0 || (setup_sectors(b) + 1) * 512 > b.len() {
        Err("Linux handover entry is invalid")
    } else {
        Ok(
            Header {
                setup_bytes: ((setup_sectors(b) + 1) * 512) as usize,
                handover_offset: le32(b, 0x264) as usize,
                size: (0x290 - SETUP_HEADER) as usize,
            },
        )
    }
}

/// The setup fields of `boot_params`, in the order they are written.
pub open spec fn setup_writes(
    h: Header,
    image_base: usize,
    initrd_address: Option<usize>,
    initrd_len: usize,
    command_line_address: usize,
    command_line_len: usize,
) -> Result<Seq<ParamWrite>, &'static str> {
    if image_base + h.setup_bytes > usize::MAX {
        Err("Linux image address overflow")
    } else {
        let ramdisk = match initrd_address {
            Some(a) => seq![ParamWrite::Word { offset: RAMDISK_IMAGE, value: a as u32 }],
            None => Seq::empty(),
        };
        Ok(
            seq![
                ParamWrite::Byte { offset: TYPE_OF_LOADER, value: 0xff },
                ParamWrite::Word {
                    offset: CODE32_START,
                    value: (image_base + h.setup_bytes) as usize as u32,
                },
            ] + ramdisk + seq![
                ParamWrite::Word { offset: RAMDISK_SIZE, value: initrd_len as u32 },
                ParamWrite::Word { offset: CMD_LINE_PTR, value: command_line_address as u32 },
                ParamWrite::Word {
                    offset: CMDLINE_SIZE,
                    value: ((command_line_len as u32) + 1) as u32,
                },
            ],
        )
    }
}

/// The 64-bit handover entry: past the setup code, at the handover offset,
/// plus 0x200 to skip the PE entry's UEFI ABI shim.
pub open spec fn entry_address(image_base: usize, h: Header) -> Result<usize, &'static str> {
    if image_base + h.setup_bytes + h.handover_offset + 0x200 > usize::MAX {
        Err("Linux handover address overflow")
    } else {
        Ok((image_base + h.setup_bytes + h.handover_offset + 0x200) as usize)
    }
}

/// Position and size of the contiguous set bits of `mask` ((0, 0) for none).
pub open spec fn bits_of(mask: u32) -> (u8, u8) {
    if mask == 0 {
        (0, 0)
    } else {
        (
            u32_trailing_zeros(mask) as u8,
            (32 - u32_leading_zeros(mask) - u32_trailing_zeros(mask)) as u8,
        )
    }
}

/// Bit `i` of `mask`.
pub open spec fn bit(mask: u32, i: u32) -> bool {
    (mask >> i) & 1u32 == 1u32
}

/// The mask that a `Bitmask` mode is read with (all zero when the mode has
/// none).
pub open spec fn mask_of(info: ModeInfo) -> PixelBitmask {
    match info.bitmask {
        Some(m) => m,
        None => PixelBitmask { red: 0, green: 0, blue: 0, reserved: 0 },
    }
}

/// `(red_pos, red_size, green_pos, green_size, blue_pos, blue_size,
/// rsvd_pos, rsvd_size)` of a mode that is not `BltOnly`.
pub open spec fn channels(info: ModeInfo) -> (u8, u8, u8, u8, u8, u8, u8, u8) {
    match info.format {
        PixelFormat::Rgb => (0, 8, 8, 8, 16, 8, 24, 8),
        PixelFormat::Bgr => (16, 8, 8, 8, 0, 8, 24, 8),
        _ => {
            let m = mask_of(info);
            (
                bits_of(m.red).0,
                bits_of(m.red).1,
                bits_of(m.green).0,
                bits_of(m.green).1,
                bits_of(m.blue).0,
                bits_of(m.blue).1,
                bits_of(m.reserved).0,
                bits_of(m.reserved).1,
            )
        },
    }
}

/// Bits per pixel: the sum of the channel sizes.
pub open spec fn depth_of(info: ModeInfo) -> int {
    let c = channels(info);
    c.1 + c.3 + c.5 + c.7
}

/// Bytes per scan line.
pub open spec fn linelength_of(info: ModeInfo) -> int {
    ((info.stride as u32) * depth_of(info)) / 8
}

/// The framebuffer arithmetic fits in `u32`.
pub open spec fn screen_fits(info: ModeInfo) -> bool {
    &&& (info.stride as u32) * depth_of(info) <= u32::MAX
    &&& linelength_of(info) * (info.height as u32) <= u32::MAX
}

/// The `screen_info` stores for a mode that is not `BltOnly`, with the
/// framebuffer at `base`.
pub open spec fn screen_writes(info: ModeInfo, base: u64) -> Seq<ParamWrite> {
    let c = channels(info);
    let ext = base / 0x1_0000_0000;
    let tail = if ext != 0 {
        seq![
            ParamWrite::Word { offset: EXT_LFB_BASE, value: ext as u32 },
            ParamWrite::Word {
                offset: CAPABILITIES,
                value: VIDEO_CAPABILITY_SKIP_QUIRKS | VIDEO_CAPABILITY_64BIT_BASE,
            },
        ]
    } else {
        seq![ParamWrite::Word { offset: CAPABILITIES, value: VIDEO_CAPABILITY_SKIP_QUIRKS }]
    };
    seq![
        ParamWrite::Byte { offset: ORIG_VIDEO_ISVGA, value: VIDEO_TYPE_EFI },
        ParamWrite::Half { offset: LFB_WIDTH, value: info.width as u16 },
        ParamWrite::Half { offset: LFB_HEIGHT, value: info.height as u16 },
        ParamWrite::Half { offset: LFB_DEPTH, value: depth_of(info) as u16 },
        ParamWrite::Word { offset: LFB_BASE, value: base as u32 },
        ParamWrite::Word {
            offset: LFB_SIZE,
            value: (linelength_of(info) * (info.height as u32)) as u32,
        },
        ParamWrite::Half { offset: LFB_LINELENGTH, value: linelength_of(info) as u16 },
        ParamWrite::Byte { offset: RED_SIZE, value: c.1 },
        ParamWrite::Byte { offset: RED_POS, value: c.0 },
        ParamWrite::Byte { offset: GREEN_SIZE, value: c.3 },
        ParamWrite::Byte { offset: GREEN_POS, value: c.2 },
        ParamWrite::Byte { offset: BLUE_SIZE, value: c.5 },
        ParamWrite::Byte { offset: BLUE_POS, value: c.4 },
        ParamWrite::Byte { offset: RSVD_SIZE, value: c.7 },
        ParamWrite::Byte { offset: RSVD_POS, value: c.6 },
        ParamWrite::Half { offset: PAGES, value: 1 },
    ] + tail
}

/// A bzImage is accepted only with the "HdrS" setup-header magic at 0x202,
/// boot protocol 2.11 or later, the 64-bit EFI handover flag set and a
/// non-zero handover offset; its real-mode part is one boot sector plus the
/// setup sectors (4 when the field is 0), which must lie inside the file.
pub proof fn lemma_accepted_bzimage(b: Seq<u8>)
    ensures
        parse_header(b) matches Ok(h) ==> {
            &&& le32(b, 0x202) == 0x5372_6448
            &&& le16(b, 0x206) >= 0x020b
            &&& (le16(b, 0x236) / 8) % 2 == 1
            &&& le32(b, 0x264) != 0
            &&& h.handover_offset == le32(b, 0x264)
            &&& h.setup_bytes == 512 * (1 + if b[0x1f1] == 0 { 4 } else { b[0x1f1] as int })
            &&& h.setup_bytes <= b.len()
            &&& h.size == 0x9f
        },
{
}

/// The `screen_info` channel layout of the two byte-per-colour formats:
/// an RGB framebuffer (`PixelRedGreenBlueReserved8BitPerColor`) has red in
/// bits 0..8, green in 8..16, blue in 16..24 and the reserved byte in
/// 24..32; a BGR one has red and blue exchanged. So the two formats are
/// never described the same way.
pub proof fn lemma_byte_channel_layouts(info: ModeInfo, base: u64)
    ensures
        info.format == PixelFormat::Rgb ==> {
            let w = screen_writes(info, base);
            &&& w.contains(ParamWrite::Byte { offset: 0x27, value: 0 })
            &&& w.contains(ParamWrite::Byte { offset: 0x29, value: 8 })
            &&& w.contains(ParamWrite::Byte { offset: 0x2b, value: 16 })
            &&& w.contains(ParamWrite::Byte { offset: 0x2d, value: 24 })
            &&& w.contains(ParamWrite::Byte { offset: 0x26, value: 8 })
            &&& w.contains(ParamWrite::Byte { offset: 0x28, value: 8 })
            &&& w.contains(ParamWrite::Byte { offset: 0x2a, value: 8 })
            &&& w.contains(ParamWrite::Byte { offset: 0x2c, value: 8 })
        },
        info.format == PixelFormat::Bgr ==> {
            let w = screen_writes(info, base);
            &&& w.contains(ParamWrite::Byte { offset: 0x27, value: 16 })
            &&& w.contains(ParamWrite::Byte { offset: 0x29, value: 8 })
            &&& w.contains(ParamWrite::Byte { offset: 0x2b, value: 0 })
            &&& w.contains(ParamWrite::Byte { offset: 0x2d, value: 24 })
            &&& w.contains(ParamWrite::Byte { offset: 0x26, value: 8 })
            &&& w.contains(ParamWrite::Byte { offset: 0x28, value: 8 })
            &&& w.contains(ParamWrite::Byte { offset: 0x2a, value: 8 })
            &&& w.contains(ParamWrite::Byte { offset: 0x2c, value: 8 })
        },
        info.format == PixelFormat::Rgb || info.format == PixelFormat::Bgr ==> {
            let w = screen_writes(info, base);
            &&& w[8] == ParamWrite::Byte { offset: 0x27, value: if info.format == PixelFormat::Rgb { 0u8 } else { 16u8 } }
            &&& w[12] == ParamWrite::Byte { offset: 0x2b, value: if info.format == PixelFormat::Rgb { 16u8 } else { 0u8 } }
        },
{
    let w = screen_writes(info, base);
    if info.format == PixelFormat::Rgb || info.format == PixelFormat::Bgr {
        assert(w[7] == ParamWrite::Byte { offset: RED_SIZE, value: channels(info).1 });
        assert(w[8] == ParamWrite::Byte { offset: RED_POS, value: channels(info).0 });
        assert(w[9] == ParamWrite::Byte { offset: GREEN_SIZE, value: channels(info).3 });
        assert(w[10] == ParamWrite::Byte { offset: GREEN_POS, value: channels(info).2 });
        assert(w[11] == ParamWrite::Byte { offset: BLUE_SIZE, value: channels(info).5 });
        assert(w[12] == ParamWrite::Byte { offset: BLUE_POS, value: channels(info).4 });
        assert(w[13] == ParamWrite::Byte { offset: RSVD_SIZE, value: channels(info).7 });
        assert(w[14] == ParamWrite::Byte { offset: RSVD_POS, value: channels(info).6 });
    }
}

/// Pages that hold `size` bytes, or the error for a size that overflows.
pub open spec fn pages_needed(size: usize) -> Result<usize, &'static str> {
    if size + (PAGE_SIZE - 1) > usize::MAX {
        Err("Linux allocation size overflow")
    } else {
        Ok(((size + (PAGE_SIZE - 1)) / (PAGE_SIZE as int)) as usize)
    }
}

// ---------------------------------------------------------------------------
// Executable code
// ---------------------------------------------------------------------------

fn read_u16(bytes: &[u8], offset: usize) -> (r: Result<u16, &'static str>)
    ensures
        offset + 2 <= bytes@.len() ==> r == Ok::<u16, &'static str>(le16(bytes@, offset as int) as u16),
        offset + 2 > bytes@.len() ==> r == Err::<u16, &'static str>("truncated Linux header"),
{
    if offset > bytes.len() || bytes.len() - offset < 2 {
        return Err("truncated Linux header");
    }
    Ok(u16_at(bytes, offset))
}

fn read_u32(bytes: &[u8], offset: usize) -> (r: Result<u32, &'static str>)
    ensures
        offset + 4 <= bytes@.len() ==> r == Ok::<u32, &'static str>(le32(bytes@, offset as int) as u32),
        offset + 4 > bytes@.len() ==> r == Err::<u32, &'static str>("truncated Linux header"),
{
    if offset > bytes.len() || bytes.len() - offset < 4 {
        return Err("truncated Linux header");
    }
    Ok(u32_at(bytes, offset))
}

impl Header {
    /// Checks the setup header of a bzImage for 64-bit EFI handover support.
    pub fn parse(kernel: &[u8]) -> (r: Result<Header, &'static str>)
        ensures
            r == parse_header(kernel@),
    {
        let magic = read_u32(kernel, 0x202)?;
        if magic != HEADER_MAGIC {
            return Err("vmlinuz does not contain a Linux setup header");
        }
        if read_u16(kernel, 0x206)? < MIN_PROTOCOL_VERSION {
            return Err("Linux kernel lacks EFI handover protocol support");
        }
        let flags = read_u16(kernel, XLOADFLAGS)?;
        assert((flags & 8u16 == 0u16) <==> ((flags / 8) % 2 == 0)) by (bit_vector);
        if flags & XLF_EFI_HANDOVER_64 == 0 {
            return Err("Linux kernel lacks 64-bit EFI handover support");
        }
        let setup_sectors: usize = if kernel[0x1f1] == 0 {
            4
        } else {
            kernel[0x1f1] as usize
        };
        let setup_bytes = (setup_sectors + 1) * 512;
        let handover_offset = read_u32(kernel, HANDOVER_OFFSET)? as usize;
        if handover_offset == 0 || setup_bytes > kernel.len() {
            return Err("Linux handover entry is invalid");
        }
        Ok(Header { setup_bytes, handover_offset, size: 0x290 - SETUP_HEADER })
    }
}

/// The setup fields of `boot_params`: loader type, 32-bit code start,
/// initrd address and size, command line address and size (with its NUL).
pub fn boot_params_writes(
    header: &Header,
    image_base: usize,
    initrd_address: Option<usize>,
    initrd_len: usize,
    command_line_address: usize,
    command_line_len: usize,
) -> (r: Result<Vec<ParamWrite>, &'static str>)
    requires
        command_line_len < u32::MAX,
    ensures
        r matches Ok(w) ==> setup_writes(
            *header,
            image_base,
            initrd_address,
            initrd_len,
            command_line_address,
            command_line_len,
        ) == Ok::<Seq<ParamWrite>, &'static str>(w@),
        r matches Err(e) ==> setup_writes(
            *header,
            image_base,
            initrd_address,
            initrd_len,
            command_line_address,
            command_line_len,
        ) == Err::<Seq<ParamWrite>, &'static str>(e),
{
    if image_base > usize::MAX - header.setup_bytes {
        return Err("Linux image address overflow");
    }
    let mut w: Vec<ParamWrite> = Vec::new();
    w.push(ParamWrite::Byte { offset: TYPE_OF_LOADER, value: 0xff });
    w.push(
        ParamWrite::Word { offset: CODE32_START, value: (image_base + header.setup_bytes) as u32 },
    );
    if let Some(address) = initrd_address {
        w.push(ParamWrite::Word { offset: RAMDISK_IMAGE, value: address as u32 });
    }
    w.push(ParamWrite::Word { offset: RAMDISK_SIZE, value: initrd_len as u32 });
    w.push(ParamWrite::Word { offset: CMD_LINE_PTR, value: command_line_address as u32 });
    w.push(ParamWrite::Word { offset: CMDLINE_SIZE, value: command_line_len as u32 + 1 });
    proof {
        let s = setup_writes(
            *header,
            image_base,
            initrd_address,
            initrd_len,
            command_line_address,
            command_line_len,
        );
        assert(s is Ok);
        assert(w@ =~= s->Ok_0);
    }
    Ok(w)
}

/// The address of the 64-bit handover entry of an image loaded at
/// `image_base`.
pub fn handover_entry(image_base: usize, header: &Header) -> (r: Result<usize, &'static str>)
    ensures
        r == entry_address(image_base, *header),
{
    if image_base > usize::MAX - header.setup_bytes {
        return Err("Linux handover address overflow");
    }
    let address = image_base + header.setup_bytes;
    if address > usize::MAX - header.handover_offset {
        return Err("Linux handover address overflow");
    }
    let address = address + header.handover_offset;
    if address > usize::MAX - 0x200 {
        return Err("Linux handover address overflow");
    }
    Ok(address + 0x200)
}

/// Position and size of the set bits of a GOP channel mask, which UEFI
/// guarantees to be contiguous.
pub fn find_bits(mask: u32) -> (r: (u8, u8))
    ensures
        r == bits_of(mask),
        mask == 0 ==> r == (0u8, 0u8),
        mask != 0 ==> {
            &&& bit(mask, r.0 as u32)
            &&& bit(mask, (r.0 + r.1 - 1) as u32)
            &&& forall|j: u32| j < r.0 ==> !#[trigger] bit(mask, j)
            &&& forall|j: u32| r.0 + r.1 <= j < 32 ==> !#[trigger] bit(mask, j)
        },
{
    proof {
        axiom_u32_trailing_zeros(mask);
        axiom_u32_leading_zeros(mask);
    }
    if mask == 0 {
        return (0, 0);
    }
    let tz = mask.trailing_zeros();
    let lz = mask.leading_zeros();
    proof {
        if 31 - lz < tz {
            let j = (31 - lz) as u32;
            assert((mask >> j) & 1u32 == 0u32);
        }
        assert forall|j: u32| tz + (32 - lz - tz) <= j < 32 implies !#[trigger] bit(mask, j) by {
            assert((mask >> j) & 1u32 == 0u32);
        }
        let top = (31 - lz) as u32;
        assert((mask >> top) & 1u32 != 0u32);
        assert(((mask >> top) & 1u32 != 0u32) ==> ((mask >> top) & 1u32 == 1u32)) by (bit_vector);
        assert(top == (tz + (32 - lz - tz) - 1) as u32);
    }
    let pos = tz as u8;
    let size = (32 - lz as u8) - pos;
    (pos, size)
}

/// The channel layout of a mode that is not `BltOnly`.
fn channel_layout(info: &ModeInfo) -> (r: (u8, u8, u8, u8, u8, u8, u8, u8))
    requires
        info.format != PixelFormat::BltOnly,
    ensures
        r == channels(*info),
        r.1 <= 32 && r.3 <= 32 && r.5 <= 32 && r.7 <= 32,
{
    match info.format {
        PixelFormat::Rgb => (0u8, 8u8, 8u8, 8u8, 16u8, 8u8, 24u8, 8u8),
        PixelFormat::Bgr => (16u8, 8u8, 8u8, 8u8, 0u8, 8u8, 24u8, 8u8),
        _ => {
            let mask = match info.bitmask {
                Some(m) => m,
                None => PixelBitmask { red: 0, green: 0, blue: 0, reserved: 0 },
            };
            let (rp, rs) = find_bits(mask.red);
            let (gp, gs) = find_bits(mask.green);
            let (bp, bs) = find_bits(mask.blue);
            let (xp, xs) = find_bits(mask.reserved);
            (rp, rs, gp, gs, bp, bs, xp, xs)
        },
    }
}

/// Whether `screen_info_writes` can fill in `info`: the framebuffer
/// arithmetic of a memory-mapped mode fits in `u32`.
pub fn screen_fits_check(info: &ModeInfo) -> (r: bool)
    ensures
        r == (info.format != PixelFormat::BltOnly ==> screen_fits(*info)),
{
    if info.format == PixelFormat::BltOnly {
        return true;
    }
    let (_rp, rs, _gp, gs, _bp, bs, _xp, xs) = channel_layout(info);
    let depth: u64 = rs as u64 + gs as u64 + bs as u64 + xs as u64;
    let stride: u64 = info.stride as u32 as u64;
    assert(stride * depth <= 0xffff_ffff * 128) by (nonlinear_arith)
        requires
            stride <= 0xffff_ffff,
            depth <= 128,
    ;
    let line: u64 = stride * depth;
    if line > u32::MAX as u64 {
        return false;
    }
    let linelength: u64 = line / 8;
    let height: u64 = info.height as u32 as u64;
    assert(linelength * height <= 0xffff_ffff * 0xffff_ffff) by (nonlinear_arith)
        requires
            linelength <= 0xffff_ffff,
            height <= 0xffff_ffff,
    ;
    linelength * height <= u32::MAX as u64
}

/// Fills in `boot_params.screen_info` from the GOP mode, as the kernel's own
/// EFI stub does; `None` when the framebuffer is not memory-mapped
/// (`BltOnly`) and the Linux console stays text-only.
pub fn screen_info_writes(info: &ModeInfo, base: u64) -> (r: Option<Vec<ParamWrite>>)
    requires
        info.format != PixelFormat::BltOnly ==> screen_fits(*info),
    ensures
        info.format == PixelFormat::BltOnly ==> r is None,
        info.format != PixelFormat::BltOnly ==> (r matches Some(w) && w@ == screen_writes(
            *info,
            base,
        )),
{
    if info.format == PixelFormat::BltOnly {
        return None;
    }
    let (red_pos, red_size, green_pos, green_size, blue_pos, blue_size, rsvd_pos, rsvd_size) =
        channel_layout(info);
    let lfb_depth = red_size as u16 + green_size as u16 + blue_size as u16 + rsvd_size as u16;
    let lfb_linelength = (info.stride as u32 * lfb_depth as u32) / 8;
    let lfb_size = lfb_linelength * info.height as u32;
    let mut w: Vec<ParamWrite> = Vec::new();
    w.push(ParamWrite::Byte { offset: ORIG_VIDEO_ISVGA, value: VIDEO_TYPE_EFI });
    w.push(ParamWrite::Half { offset: LFB_WIDTH, value: info.width as u16 });
    w.push(ParamWrite::Half { offset: LFB_HEIGHT, value: info.height as u16 });
    w.push(ParamWrite::Half { offset: LFB_DEPTH, value: lfb_depth });
    w.push(ParamWrite::Word { offset: LFB_BASE, value: base as u32 });
    w.push(ParamWrite::Word { offset: LFB_SIZE, value: lfb_size });
    w.push(ParamWrite::Half { offset: LFB_LINELENGTH, value: lfb_linelength as u16 });
    w.push(ParamWrite::Byte { offset: RED_SIZE, value: red_size });
    w.push(ParamWrite::Byte { offset: RED_POS, value: red_pos });
    w.push(ParamWrite::Byte { offset: GREEN_SIZE, value: green_size });
    w.push(ParamWrite::Byte { offset: GREEN_POS, value: green_pos });
    w.push(ParamWrite::Byte { offset: BLUE_SIZE, value: blue_size });
    w.push(ParamWrite::Byte { offset: BLUE_POS, value: blue_pos });
    w.push(ParamWrite::Byte { offset: RSVD_SIZE, value: rsvd_size });
    w.push(ParamWrite::Byte { offset: RSVD_POS, value: rsvd_pos });
    w.push(ParamWrite::Half { offset: PAGES, value: 1 });
    let mut capabilities = VIDEO_CAPABILITY_SKIP_QUIRKS;
    let ext_base = base / 0x1_0000_0000;
    if ext_base != 0 {
        capabilities = capabilities | VIDEO_CAPABILITY_64BIT_BASE;
        w.push(ParamWrite::Word { offset: EXT_LFB_BASE, value: ext_base as u32 });
    }
    w.push(ParamWrite::Word { offset: CAPABILITIES, value: capabilities });
    assert(w@ =~= screen_writes(*info, base));
    Some(w)
}

/// The command line handed to the kernel: the entry's options, or the
/// default.
pub fn command_line_for<'a>(options: Option<&'a str>) -> (r: &'a str)
    ensures
        r@ == (match options {
            Some(s) => s@,
            None => DEFAULT_CMDLINE@,
        }),
{
    match options {
        Some(s) => s,
        None => DEFAULT_CMDLINE,
    }
}

/// Checks a command line and returns the size of its NUL-terminated copy.
pub fn command_line_allocation(bytes: &[u8]) -> (r: Result<usize, &'static str>)
    ensures
        bytes@.contains(0u8) ==> r == Err::<usize, &'static str>("Linux command line contains NUL"),
        !bytes@.contains(0u8) && bytes@.len() + 1 > usize::MAX ==> r == Err::<usize, &'static str>(
            "Linux command line is too large",
        ),
        !bytes@.contains(0u8) && bytes@.len() + 1 <= usize::MAX ==> r == Ok::<usize, &'static str>(
            (bytes@.len() + 1) as usize,
        ),
{
    let mut i: usize = 0;
    while i < bytes.len()
        invariant
            i <= bytes@.len(),
            forall|j: int| 0 <= j < i ==> bytes@[j] != 0u8,
        decreases bytes@.len() - i,
    {
        if bytes[i] == 0 {
            return Err("Linux command line contains NUL");
        }
        i += 1;
    }
    if bytes.len() == usize::MAX {
        return Err("Linux command line is too large");
    }
    Ok(bytes.len() + 1)
}

/// Pages of a zeroed allocation of `size` bytes.
pub fn allocation_pages(size: usize) -> (r: Result<usize, &'static str>)
    ensures
        r == pages_needed(size),
{
    if size > usize::MAX - (PAGE_SIZE - 1) {
        return Err("Linux allocation size overflow");
    }
    Ok((size + (PAGE_SIZE - 1)) / PAGE_SIZE)
}

/// A file copied for the kernel must be addressable by a 32-bit field.
pub fn check_file_size(len: usize) -> (r: Result<(), &'static str>)
    ensures
        len > u32::MAX ==> r == Err::<(), &'static str>("Linux file is too large"),
        len <= u32::MAX ==> r == Ok::<(), &'static str>(()),
{
    if len > u32::MAX as usize {
        return Err("Linux file is too large");
    }
    Ok(())
}

/// What a return from the handover entry means.
pub fn handover_returned(status: u64) -> (r: &'static str)
    ensures
        status == 0 ==> r == "Linux EFI handover unexpectedly returned",
        status != 0 ==> r == "Linux EFI handover returned an error",
{
    if status == 0 {
        "Linux EFI handover unexpectedly returned"
    } else {
        "Linux EFI handover returned an error"
    }
}

} // verus!
