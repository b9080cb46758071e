use r_boot::bgrt::{
    bmp_extent, bmp_fits_check, decode_bmp, decode_bmp_bytes, entry_address, logo_fits,
    parse_bgrt, rsdp_address, rsdp_root, sdt_entry_count, Bgrt,
};
use r_boot::spinner::{Erase, Mode, Pixel, Spinner};
use r_boot::splash::Image;

const BLACK: Pixel = Pixel { red: 0, green: 0, blue: 0 };
const GREY: Pixel = Pixel { red: 48, green: 48, blue: 48 };
const WHITE: Pixel = Pixel { red: 255, green: 255, blue: 255 };

fn at(spinner: &Spinner, x: usize, y: usize) -> Pixel {
    spinner.buffer()[y * 48 + x]
}

#[test]
fn spinner_mode_names_and_cycle() {
    for mode in [Mode::Off, Mode::Text, Mode::Graphical] {
        assert_eq!(Mode::parse(mode.as_str()), Some(mode));
        assert_eq!(mode.next().previous(), mode);
    }
    assert_eq!(Mode::parse("fancy"), None);
    assert_eq!(Mode::Off.next(), Mode::Text);
    assert_eq!(Mode::Graphical.next(), Mode::Off);
    assert_eq!(Mode::default(), Mode::Graphical);
}

#[test]
fn new_spinner_is_blank() {
    let spinner = Spinner::new(Mode::Graphical);
    assert_eq!(spinner.mode(), Mode::Graphical);
    assert_eq!(spinner.buffer().len(), 48 * 48);
    assert!(spinner.buffer().iter().all(|p| *p == BLACK));
}

#[test]
fn text_spinner_cycles_four_frames() {
    let mut spinner = Spinner::new(Mode::Text);
    let frames: Vec<char> = (0..5).map(|_| spinner.text_tick()).collect();
    assert_eq!(frames, vec!['|', '/', '-', '\\', '|']);
    assert_eq!(spinner.clear(), Erase::TextLine);
}

#[test]
fn graphical_frames_highlight_one_dot() {
    let mut spinner = Spinner::new(Mode::Graphical);
    assert_eq!(spinner.clear(), Erase::Nothing);
    spinner.render_frame();
    assert_eq!(at(&spinner, 24, 8), WHITE);
    assert_eq!(at(&spinner, 27, 8), WHITE);
    assert_eq!(at(&spinner, 26, 10), WHITE);
    assert_eq!(at(&spinner, 27, 9), BLACK);
    assert_eq!(at(&spinner, 32, 10), GREY);
    assert_eq!(at(&spinner, 24, 24), BLACK);
    spinner.frame_shown((10, 20));
    spinner.render_frame();
    assert_eq!(at(&spinner, 24, 8), GREY);
    assert_eq!(at(&spinner, 32, 10), WHITE);
    assert_eq!(spinner.clear(), Erase::Blit { x: 10, y: 20 });
    assert!(spinner.buffer().iter().all(|p| *p == BLACK));
    spinner.set_mode(Mode::Off);
    assert_eq!(spinner.clear(), Erase::Nothing);
}

#[test]
fn spinner_is_centred() {
    assert_eq!(Spinner::position_on(1024, 768), Some((488, 360)));
    assert_eq!(Spinner::position_on(48, 48), Some((0, 0)));
    assert_eq!(Spinner::position_on(40, 100), None);
}

#[test]
fn splash_image_names_and_steps() {
    assert_eq!(Image::parse("nixos"), Some(Image::Nixos));
    assert_eq!(Image::parse("linux"), Some(Image::Linux));
    assert_eq!(Image::parse("windows"), None);
    assert_eq!(Image::Linux.as_str(), "linux");
    assert_eq!(Image::Nixos.next(), Some(Image::Linux));
    assert_eq!(Image::Linux.next(), None);
    assert_eq!(Image::Linux.previous(), Some(Image::Nixos));
    assert_eq!(Image::Nixos.previous(), None);
}

/// A 2x2 bitmap; rows are stored bottom-up unless `top_down`.
fn bmp(bit_count: u16, top_down: bool) -> Vec<u8> {
    let bpp = (bit_count / 8) as usize;
    let stride = (2 * bpp + 3) & !3;
    let mut b = vec![0u8; 54 + 2 * stride];
    b[0] = b'B';
    b[1] = b'M';
    b[10..14].copy_from_slice(&54u32.to_le_bytes());
    b[14..18].copy_from_slice(&40u32.to_le_bytes());
    b[18..22].copy_from_slice(&2i32.to_le_bytes());
    let height: i32 = if top_down { -2 } else { 2 };
    b[22..26].copy_from_slice(&height.to_le_bytes());
    b[26..28].copy_from_slice(&1u16.to_le_bytes());
    b[28..30].copy_from_slice(&bit_count.to_le_bytes());
    // First stored row, then second; each pixel is blue, green, red.
    let rows = [[[1u8, 2, 3], [4, 5, 6]], [[7, 8, 9], [10, 11, 12]]];
    for (r, row) in rows.iter().enumerate() {
        for (c, px) in row.iter().enumerate() {
            let at = 54 + r * stride + c * bpp;
            b[at..at + 3].copy_from_slice(px);
        }
    }
    b
}

fn px(red: u8, green: u8, blue: u8) -> Pixel {
    Pixel { red, green, blue }
}

#[test]
fn bmp_bottom_up_rows_are_flipped() {
    let b = bmp(24, false);
    assert_eq!(b.len(), 70);
    assert!(bmp_fits_check(&b));
    let logo = decode_bmp(&b, 5, 6).unwrap();
    assert_eq!((logo.x, logo.y, logo.width, logo.height), (5, 6, 2, 2));
    assert_eq!(logo.pixels, vec![px(9, 8, 7), px(12, 11, 10), px(3, 2, 1), px(6, 5, 4)]);
    assert_eq!(bmp_extent(&b[..54]), Some(70));
}

#[test]
fn bmp_top_down_32_bit() {
    let b = bmp(32, true);
    assert!(bmp_fits_check(&b));
    let logo = decode_bmp_bytes(&b).unwrap();
    assert_eq!((logo.x, logo.y), (0, 0));
    assert_eq!(logo.pixels, vec![px(3, 2, 1), px(6, 5, 4), px(9, 8, 7), px(12, 11, 10)]);
}

#[test]
fn bmp_rejections() {
    let b = bmp(24, false);
    assert!(decode_bmp(&b[..69], 0, 0).is_none());
    assert!(decode_bmp_bytes(&b[..40]).is_none());
    let mut bad = b.clone();
    bad[0] = b'X';
    assert!(decode_bmp(&bad, 0, 0).is_none());
    let mut compressed = b.clone();
    compressed[30] = 1;
    assert!(decode_bmp(&compressed, 0, 0).is_none());
    let mut eight = b.clone();
    eight[28] = 8;
    assert!(decode_bmp(&eight, 0, 0).is_none());
    assert_eq!(bmp_extent(&eight[..54]), None);
    let mut empty = b.clone();
    empty[18..22].copy_from_slice(&0i32.to_le_bytes());
    assert!(decode_bmp(&empty, 0, 0).is_none());
}

fn rsdp(revision: u8, rsdt: u32, xsdt: u64) -> Vec<u8> {
    let mut b = vec![0u8; 36];
    b[..8].copy_from_slice(b"RSD PTR ");
    b[15] = revision;
    b[16..20].copy_from_slice(&rsdt.to_le_bytes());
    b[24..32].copy_from_slice(&xsdt.to_le_bytes());
    b
}

#[test]
fn rsdp_prefers_the_xsdt() {
    assert_eq!(rsdp_root(&rsdp(2, 0x1000, 0x2000)), Some((0x2000, 8)));
    assert_eq!(rsdp_root(&rsdp(0, 0x1000, 0x2000)), Some((0x1000, 4)));
    assert_eq!(rsdp_root(&rsdp(2, 0x1000, 0)), Some((0x1000, 4)));
    assert_eq!(rsdp_root(&rsdp(2, 0, 0)), None);
    let mut bad = rsdp(2, 0x1000, 0x2000);
    bad[0] = b'X';
    assert_eq!(rsdp_root(&bad), None);
}

#[test]
fn root_table_entries() {
    let mut header = vec![0u8; 36];
    header[4..8].copy_from_slice(&52u32.to_le_bytes());
    assert_eq!(sdt_entry_count(&header, 8), 2);
    assert_eq!(sdt_entry_count(&header, 4), 4);
    header[4..8].copy_from_slice(&10u32.to_le_bytes());
    assert_eq!(sdt_entry_count(&header, 8), 0);
    let entries = [0x11u8, 0x22, 0x33, 0x44, 0x55, 0x66, 0x77, 0x88];
    assert_eq!(entry_address(&entries, 0, 8), 0x8877_6655_4433_2211);
    assert_eq!(entry_address(&entries, 1, 4), 0x8877_6655);
}

#[test]
fn bgrt_table_parsing() {
    let mut t = vec![0u8; 56];
    t[..4].copy_from_slice(b"BGRT");
    t[40..48].copy_from_slice(&0xdead_0000u64.to_le_bytes());
    t[48..52].copy_from_slice(&100u32.to_le_bytes());
    t[52..56].copy_from_slice(&200u32.to_le_bytes());
    assert_eq!(
        parse_bgrt(&t),
        Some(Bgrt { image_address: 0xdead_0000, offset_x: 100, offset_y: 200 })
    );
    let mut png = t.clone();
    png[39] = 1;
    assert_eq!(parse_bgrt(&png), None);
    let mut facp = t.clone();
    facp[..4].copy_from_slice(b"FACP");
    assert_eq!(parse_bgrt(&facp), None);
    let mut no_address = t.clone();
    no_address[40..48].copy_from_slice(&0u64.to_le_bytes());
    assert_eq!(parse_bgrt(&no_address), None);
}

#[test]
fn rsdp_address_prefers_first_acpi2_entry() {
    let entries = vec![(1u128, 0x10u64), (2, 0x20), (2, 0x30)];
    assert_eq!(rsdp_address(&entries, 2, 1), Some(0x20));
    assert_eq!(rsdp_address(&entries, 3, 1), Some(0x10));
    assert_eq!(rsdp_address(&entries, 3, 4), None);
}

#[test]
fn logo_fits_on_screen() {
    assert!(logo_fits((10, 10), 100, 50, 110, 60));
    assert!(!logo_fits((11, 10), 100, 50, 110, 60));
    assert!(!logo_fits((10, 11), 100, 50, 110, 60));
}
