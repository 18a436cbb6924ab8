use gctpl::decoding::{
    convert3to8, convert4to8, convert5to8, convert6to8, decodepixel_ia8, decodepixel_paletted,
    decodepixel_rgb565, decodepixel_rgb5a3,
};
use gctpl::types::PaletteFormat;

#[test]
fn expanders_reach_both_ends() {
    assert_eq!(convert5to8(0), 0);
    assert_eq!(convert5to8(31), 255);
    assert_eq!(convert6to8(0), 0);
    assert_eq!(convert6to8(63), 255);
    assert_eq!(convert4to8(0), 0);
    assert_eq!(convert4to8(15), 255);
    assert_eq!(convert3to8(0), 0);
    assert_eq!(convert3to8(7), 255);
}

#[test]
fn expanders_repeat_high_bits() {
    assert_eq!(convert5to8(16), 132);
    assert_eq!(convert6to8(32), 130);
    assert_eq!(convert4to8(0xA), 0xAA);
    assert_eq!(convert3to8(5), 182);
}

#[test]
fn expanders_keep_order() {
    for v in 1u8..32 {
        assert!(convert5to8(v - 1) <= convert5to8(v));
    }
    for v in 1u8..64 {
        assert!(convert6to8(v - 1) <= convert6to8(v));
    }
    for v in 1u8..16 {
        assert!(convert4to8(v - 1) <= convert4to8(v));
    }
    for v in 1u8..8 {
        assert!(convert3to8(v - 1) <= convert3to8(v));
    }
}

#[test]
fn ia8_has_alpha_low_and_intensity_high() {
    // The stored bytes [alpha, intensity], read little-endian.
    assert_eq!(decodepixel_ia8(u16::from_le_bytes([0x12, 0xFF])), 0x12FF_FFFF);
    assert_eq!(decodepixel_ia8(0x12FF), 0xFF12_1212);
    assert_eq!(decodepixel_ia8(0xFF00), 0x00FF_FFFF);
    assert_eq!(decodepixel_ia8(0x00FF), 0xFF00_0000);
    assert_eq!(decodepixel_ia8(0x3456).to_le_bytes(), [0x34, 0x34, 0x34, 0x56]);
}

#[test]
fn rgb565_is_opaque() {
    assert_eq!(decodepixel_rgb565(0xF800), 0xFF00_00FF);
    assert_eq!(decodepixel_rgb565(0x07E0), 0xFF00_FF00);
    assert_eq!(decodepixel_rgb565(0x001F), 0xFFFF_0000);
    assert_eq!(decodepixel_rgb565(0x0000), 0xFF00_0000);
}

#[test]
fn rgb5a3_has_two_modes() {
    assert_eq!(decodepixel_rgb5a3(0x8000 | (31 << 10)), 0xFF00_00FF);
    assert_eq!(decodepixel_rgb5a3(0x7FFF), 0xFFFF_FFFF);
    assert_eq!(decodepixel_rgb5a3(0x0F00), 0x0000_00FF);
    assert_eq!(decodepixel_rgb5a3(0x5000), 0xB600_0000);
}

#[test]
fn palette_entries_are_big_endian() {
    assert_eq!(decodepixel_paletted(0x00F8, PaletteFormat::RGB565), 0xFF00_00FF);
    assert_eq!(decodepixel_paletted(0x0080, PaletteFormat::RGB5A3), 0xFF00_0000);
    assert_eq!(decodepixel_paletted(0xFF12, PaletteFormat::IA8), 0x12FF_FFFF);
    assert_eq!(decodepixel_paletted(0xFF12, PaletteFormat::IA8), decodepixel_ia8(0xFF12));
    assert_eq!(decodepixel_paletted(0x00F8, PaletteFormat::RGB565), decodepixel_rgb565(0xF800));
    assert_eq!(decodepixel_paletted(0x0080, PaletteFormat::RGB5A3), decodepixel_rgb5a3(0x8000));
}
