use r_boot::linux::{
    allocation_pages, boot_params_writes, check_file_size, command_line_allocation,
    command_line_for, find_bits, handover_entry, handover_returned, screen_fits_check,
    screen_info_writes, Header,
    ModeInfo, ParamWrite, PixelBitmask, PixelFormat, DEFAULT_CMDLINE,
};

fn bzimage(setup_sects: u8, version: u16, flags: u16, handover: u32) -> Vec<u8> {
    let mut b = vec![0u8; 0x2000];
    b[0x1f1] = setup_sects;
    b[0x202..0x206].copy_from_slice(b"HdrS");
    b[0x206..0x208].copy_from_slice(&version.to_le_bytes());
    b[0x236..0x238].copy_from_slice(&flags.to_le_bytes());
    b[0x264..0x268].copy_from_slice(&handover.to_le_bytes());
    b
}

#[test]
fn header_parse_reads_setup_and_handover() {
    let h = Header::parse(&bzimage(0, 0x020f, 8, 0x190)).unwrap();
    assert_eq!(h, Header { setup_bytes: 5 * 512, handover_offset: 0x190, size: 0x9f });
    let h = Header::parse(&bzimage(7, 0x020f, 8, 0x190)).unwrap();
    assert_eq!(h.setup_bytes, 8 * 512);
}

#[test]
fn header_parse_errors() {
    assert_eq!(Header::parse(&[0u8; 16]), Err("truncated Linux header"));
    let mut no_magic = bzimage(0, 0x020f, 8, 0x190);
    no_magic[0x202] = b'X';
    assert_eq!(Header::parse(&no_magic), Err("vmlinuz does not contain a Linux setup header"));
    assert_eq!(
        Header::parse(&bzimage(0, 0x020a, 8, 0x190)),
        Err("Linux kernel lacks EFI handover protocol support")
    );
    assert_eq!(
        Header::parse(&bzimage(0, 0x020f, 4, 0x190)),
        Err("Linux kernel lacks 64-bit EFI handover support")
    );
    assert_eq!(
        Header::parse(&bzimage(0, 0x020f, 8, 0)),
        Err("Linux handover entry is invalid")
    );
    assert_eq!(
        Header::parse(&bzimage(200, 0x020f, 8, 0x190)),
        Err("Linux handover entry is invalid")
    );
}

#[test]
fn boot_params_setup_fields() {
    let h = Header { setup_bytes: 0xa00, handover_offset: 0x190, size: 0x9f };
    let w = boot_params_writes(&h, 0x100_0000, Some(0x300_0000), 0x1234, 0x400_0000, 10).unwrap();
    assert_eq!(
        w,
        vec![
            ParamWrite::Byte { offset: 0x210, value: 0xff },
            ParamWrite::Word { offset: 0x214, value: 0x100_0a00 },
            ParamWrite::Word { offset: 0x218, value: 0x300_0000 },
            ParamWrite::Word { offset: 0x21c, value: 0x1234 },
            ParamWrite::Word { offset: 0x228, value: 0x400_0000 },
            ParamWrite::Word { offset: 0x238, value: 11 },
        ]
    );
    let without_initrd = boot_params_writes(&h, 0x100_0000, None, 0, 0x400_0000, 10).unwrap();
    assert_eq!(without_initrd.len(), 5);
    assert_eq!(without_initrd[2], ParamWrite::Word { offset: 0x21c, value: 0 });
    assert_eq!(
        boot_params_writes(&h, usize::MAX, None, 0, 0, 0),
        Err("Linux image address overflow")
    );
}

#[test]
fn handover_entry_skips_the_pe_shim() {
    let h = Header { setup_bytes: 0xa00, handover_offset: 0x190, size: 0x9f };
    assert_eq!(handover_entry(0x100_0000, &h), Ok(0x100_0000 + 0xa00 + 0x190 + 0x200));
    assert_eq!(handover_entry(usize::MAX - 0xa00, &h), Err("Linux handover address overflow"));
}

#[test]
fn find_bits_of_masks() {
    assert_eq!(find_bits(0), (0, 0));
    assert_eq!(find_bits(0x00ff_0000), (16, 8));
    assert_eq!(find_bits(0xf800), (11, 5));
    assert_eq!(find_bits(0x8000_0000), (31, 1));
    assert_eq!(find_bits(u32::MAX), (0, 32));
}

#[test]
fn screen_info_for_bgr_mode() {
    let info = ModeInfo {
        format: PixelFormat::Bgr,
        bitmask: None,
        width: 1024,
        height: 768,
        stride: 1024,
    };
    let w = screen_info_writes(&info, 0x8000_0000).unwrap();
    assert_eq!(
        w,
        vec![
            ParamWrite::Byte { offset: 0x0f, value: 0x70 },
            ParamWrite::Half { offset: 0x12, value: 1024 },
            ParamWrite::Half { offset: 0x14, value: 768 },
            ParamWrite::Half { offset: 0x16, value: 32 },
            ParamWrite::Word { offset: 0x18, value: 0x8000_0000 },
            ParamWrite::Word { offset: 0x1c, value: 4096 * 768 },
            ParamWrite::Half { offset: 0x24, value: 4096 },
            ParamWrite::Byte { offset: 0x26, value: 8 },
            ParamWrite::Byte { offset: 0x27, value: 16 },
            ParamWrite::Byte { offset: 0x28, value: 8 },
            ParamWrite::Byte { offset: 0x29, value: 8 },
            ParamWrite::Byte { offset: 0x2a, value: 8 },
            ParamWrite::Byte { offset: 0x2b, value: 0 },
            ParamWrite::Byte { offset: 0x2c, value: 8 },
            ParamWrite::Byte { offset: 0x2d, value: 24 },
            ParamWrite::Half { offset: 0x32, value: 1 },
            ParamWrite::Word { offset: 0x36, value: 1 },
        ]
    );
}

#[test]
fn screen_info_for_high_bitmask_framebuffer() {
    let info = ModeInfo {
        format: PixelFormat::Bitmask,
        bitmask: Some(PixelBitmask { red: 0xf800, green: 0x07e0, blue: 0x001f, reserved: 0 }),
        width: 640,
        height: 480,
        stride: 640,
    };
    let w = screen_info_writes(&info, 0x2_4000_0000).unwrap();
    assert_eq!(w[3], ParamWrite::Half { offset: 0x16, value: 16 });
    assert_eq!(w[4], ParamWrite::Word { offset: 0x18, value: 0x4000_0000 });
    assert_eq!(w[6], ParamWrite::Half { offset: 0x24, value: 1280 });
    assert_eq!(w[7], ParamWrite::Byte { offset: 0x26, value: 5 });
    assert_eq!(w[8], ParamWrite::Byte { offset: 0x27, value: 11 });
    assert_eq!(w[10], ParamWrite::Byte { offset: 0x29, value: 5 });
    assert_eq!(w[w.len() - 2], ParamWrite::Word { offset: 0x3a, value: 2 });
    assert_eq!(w[w.len() - 1], ParamWrite::Word { offset: 0x36, value: 3 });
    let blt = ModeInfo { format: PixelFormat::BltOnly, ..info };
    assert_eq!(screen_info_writes(&blt, 0), None);
}

#[test]
fn command_line_helpers() {
    assert_eq!(command_line_for(Some("quiet")), "quiet");
    assert_eq!(command_line_for(None), DEFAULT_CMDLINE);
    assert_eq!(command_line_allocation(b"quiet"), Ok(6));
    assert_eq!(command_line_allocation(b""), Ok(1));
    assert_eq!(command_line_allocation(b"a\0b"), Err("Linux command line contains NUL"));
    assert_eq!(allocation_pages(0), Ok(0));
    assert_eq!(allocation_pages(4096), Ok(1));
    assert_eq!(allocation_pages(4097), Ok(2));
    assert_eq!(allocation_pages(usize::MAX), Err("Linux allocation size overflow"));
    assert_eq!(check_file_size(1 << 20), Ok(()));
    assert_eq!(check_file_size(u32::MAX as usize + 1), Err("Linux file is too large"));
    assert_eq!(handover_returned(0), "Linux EFI handover unexpectedly returned");
    assert_eq!(handover_returned(5), "Linux EFI handover returned an error");
}

#[test]
fn screen_fits_check_bounds_the_framebuffer() {
    let info = ModeInfo {
        format: PixelFormat::Rgb,
        bitmask: None,
        width: 1920,
        height: 1080,
        stride: 1920,
    };
    assert!(screen_fits_check(&info));
    let huge = ModeInfo { stride: 200_000_000, ..info };
    assert!(!screen_fits_check(&huge));
    let tall = ModeInfo { stride: 1_000_000, height: 2_000, ..info };
    assert!(!screen_fits_check(&tall));
    let blt = ModeInfo { format: PixelFormat::BltOnly, stride: 200_000_000, ..info };
    assert!(screen_fits_check(&blt));
}
