use gctpl::decoding::{decode_texture_c14x2, decode_texture_c4, decode_texture_c8};
use gctpl::types::{PaletteFormat, TplError};

/// A palette of `n` IA8 entries; entry `k` has alpha `k` and intensity `255 - k`.
fn grey_palette(n: usize) -> Vec<u8> {
    let mut tlut = Vec::new();
    for k in 0..n {
        tlut.push(k as u8);
        tlut.push(255 - k as u8);
    }
    tlut
}

fn grey_pixel(k: u8) -> [u8; 4] {
    [255 - k, 255 - k, 255 - k, k]
}

fn pixel_at(dst: &[u8], width: usize, px: usize, py: usize) -> [u8; 4] {
    let at = 4 * (py * width + px);
    [dst[at], dst[at + 1], dst[at + 2], dst[at + 3]]
}

#[test]
fn c8_one_tile_reads_bytes_in_order() {
    let src: Vec<u8> = (0u8..32).collect();
    let tlut = grey_palette(32);
    let mut dst = vec![0u8; 8 * 4 * 4];
    let r = decode_texture_c8(&mut dst, &src, 8, 4, &tlut, PaletteFormat::IA8);
    assert_eq!(r, Ok(()));
    assert_eq!(dst.len(), 8 * 4 * 4);
    for py in 0..4 {
        for px in 0..8 {
            assert_eq!(pixel_at(&dst, 8, px, py), grey_pixel((8 * py + px) as u8));
        }
    }
}

#[test]
fn c8_tiles_follow_in_raster_order() {
    // 16 by 8 pixels: two tiles across, two down, 32 bytes each.
    let src: Vec<u8> = (0u8..128).collect();
    let tlut = grey_palette(128);
    let mut dst = vec![0u8; 16 * 8 * 4];
    let r = decode_texture_c8(&mut dst, &src, 16, 8, &tlut, PaletteFormat::IA8);
    assert_eq!(r, Ok(()));
    for py in 0..8 {
        for px in 0..16 {
            let tile = (py / 4) * 2 + px / 8;
            let at = 32 * tile + 8 * (py % 4) + px % 8;
            assert_eq!(pixel_at(&dst, 16, px, py), grey_pixel(at as u8));
        }
    }
    assert_eq!(pixel_at(&dst, 16, 8, 0), grey_pixel(32));
    assert_eq!(pixel_at(&dst, 16, 0, 4), grey_pixel(64));
    assert_eq!(pixel_at(&dst, 16, 15, 7), grey_pixel(127));
}

#[test]
fn c4_takes_the_high_nibble_first() {
    let mut src = vec![0u8; 32];
    src[0] = 0x1F;
    src[1] = 0x23;
    src[4] = 0xA0;
    src[31] = 0x0E;
    let tlut = grey_palette(16);
    let mut dst = vec![0u8; 8 * 8 * 4];
    let r = decode_texture_c4(&mut dst, &src, 8, 8, &tlut, PaletteFormat::IA8);
    assert_eq!(r, Ok(()));
    assert_eq!(pixel_at(&dst, 8, 0, 0), grey_pixel(1));
    assert_eq!(pixel_at(&dst, 8, 1, 0), grey_pixel(15));
    assert_eq!(pixel_at(&dst, 8, 2, 0), grey_pixel(2));
    assert_eq!(pixel_at(&dst, 8, 3, 0), grey_pixel(3));
    assert_eq!(pixel_at(&dst, 8, 0, 1), grey_pixel(10));
    assert_eq!(pixel_at(&dst, 8, 1, 1), grey_pixel(0));
    assert_eq!(pixel_at(&dst, 8, 6, 7), grey_pixel(0));
    assert_eq!(pixel_at(&dst, 8, 7, 7), grey_pixel(14));
}

#[test]
fn c4_tiles_are_eight_rows_high() {
    // 16 by 16 pixels: four tiles; each row of a tile is four bytes.
    let mut src = vec![0u8; 4 * 32];
    for (i, b) in src.iter_mut().enumerate() {
        *b = ((i / 4) % 16) as u8 * 0x11;
    }
    let tlut = grey_palette(16);
    let mut dst = vec![0u8; 16 * 16 * 4];
    let r = decode_texture_c4(&mut dst, &src, 16, 16, &tlut, PaletteFormat::IA8);
    assert_eq!(r, Ok(()));
    for py in 0..16 {
        for px in 0..16 {
            let row = 8 * ((py / 8) * 2 + px / 8) + py % 8;
            assert_eq!(pixel_at(&dst, 16, px, py), grey_pixel((row % 16) as u8));
        }
    }
}

#[test]
fn c14x2_ignores_the_top_two_bits() {
    let mut src = vec![0u8; 32];
    // Row 0: words 0x0001, 0xC002, 0x4003, 0x8000.
    src[0] = 0x00;
    src[1] = 0x01;
    src[2] = 0xC0;
    src[3] = 0x02;
    src[4] = 0x40;
    src[5] = 0x03;
    src[6] = 0x80;
    src[7] = 0x00;
    // Row 3, last word: 0x0104, entry 260.
    src[30] = 0x01;
    src[31] = 0x04;
    let mut tlut = vec![0u8; 2 * 261];
    for k in 0..261usize {
        tlut[2 * k] = (k % 251) as u8;
        tlut[2 * k + 1] = (k % 7) as u8;
    }
    let mut dst = vec![0u8; 4 * 4 * 4];
    let r = decode_texture_c14x2(&mut dst, &src, 4, 4, &tlut, PaletteFormat::IA8);
    assert_eq!(r, Ok(()));
    assert_eq!(pixel_at(&dst, 4, 0, 0), [1, 1, 1, 1]);
    assert_eq!(pixel_at(&dst, 4, 1, 0), [2, 2, 2, 2]);
    assert_eq!(pixel_at(&dst, 4, 2, 0), [3, 3, 3, 3]);
    assert_eq!(pixel_at(&dst, 4, 3, 0), [0, 0, 0, 0]);
    assert_eq!(pixel_at(&dst, 4, 3, 3), [(260 % 7) as u8, 1, 1, (260 % 251) as u8]);
}

#[test]
fn c14x2_tiles_follow_in_raster_order() {
    // 8 by 4 pixels: two tiles of 4 by 4.
    let mut src = vec![0u8; 64];
    for w in 0..32 {
        src[2 * w + 1] = w as u8;
    }
    let tlut = grey_palette(32);
    let mut dst = vec![0u8; 8 * 4 * 4];
    let r = decode_texture_c14x2(&mut dst, &src, 8, 4, &tlut, PaletteFormat::IA8);
    assert_eq!(r, Ok(()));
    for py in 0..4 {
        for px in 0..8 {
            let word = 16 * (px / 4) + 4 * py + px % 4;
            assert_eq!(pixel_at(&dst, 8, px, py), grey_pixel(word as u8));
        }
    }
}

#[test]
fn palette_formats_decode_through_the_tiles() {
    let src = vec![0u8, 1, 2, 3, 0, 0, 0, 0, 0, 0, 0, 0, 0, 0, 0, 0, 0, 0, 0, 0, 0, 0, 0, 0, 0, 0, 0, 0, 0, 0, 0, 0];
    // Entries: 0xF800, 0x07E0, 0x001F, 0x3F00, stored big-endian.
    let tlut = vec![0xF8, 0x00, 0x07, 0xE0, 0x00, 0x1F, 0x3F, 0x00];
    let mut dst = vec![0u8; 8 * 4 * 4];
    assert_eq!(decode_texture_c8(&mut dst, &src, 8, 4, &tlut, PaletteFormat::RGB565), Ok(()));
    assert_eq!(pixel_at(&dst, 8, 0, 0), [255, 0, 0, 255]);
    assert_eq!(pixel_at(&dst, 8, 1, 0), [0, 255, 0, 255]);
    assert_eq!(pixel_at(&dst, 8, 2, 0), [0, 0, 255, 255]);
    assert_eq!(decode_texture_c8(&mut dst, &src, 8, 4, &tlut, PaletteFormat::RGB5A3), Ok(()));
    // 0xF800 is opaque with red 30 of 31; 0x3F00 has alpha 3 of 7 and red 15 of 15.
    assert_eq!(pixel_at(&dst, 8, 0, 0), [247, 0, 0, 255]);
    assert_eq!(pixel_at(&dst, 8, 3, 0), [255, 0, 0, 109]);
}

#[test]
fn image_smaller_than_its_tiles_is_clipped() {
    let src: Vec<u8> = (0u8..32).collect();
    let tlut = grey_palette(32);
    let mut dst = vec![0xEEu8; 5 * 3 * 4 + 2];
    let r = decode_texture_c8(&mut dst, &src, 5, 3, &tlut, PaletteFormat::IA8);
    assert_eq!(r, Ok(()));
    for py in 0..3 {
        for px in 0..5 {
            assert_eq!(pixel_at(&dst, 5, px, py), grey_pixel((8 * py + px) as u8));
        }
    }
    // What lies behind the image is left alone.
    assert_eq!(dst[60], 0xEE);
    assert_eq!(dst[61], 0xEE);
}

#[test]
fn pixels_outside_the_image_need_no_entry() {
    let mut src = vec![200u8; 32];
    for py in 0..3 {
        for px in 0..5 {
            src[8 * py + px] = 1;
        }
    }
    let tlut = grey_palette(2);
    let mut dst = vec![0u8; 5 * 3 * 4];
    assert_eq!(decode_texture_c8(&mut dst, &src, 5, 3, &tlut, PaletteFormat::IA8), Ok(()));
    assert_eq!(pixel_at(&dst, 5, 4, 2), grey_pixel(1));
}

#[test]
fn short_source_is_refused() {
    let tlut = grey_palette(256);
    let mut dst = vec![7u8; 8 * 4 * 4];
    let src = vec![0u8; 31];
    assert_eq!(
        decode_texture_c8(&mut dst, &src, 8, 4, &tlut, PaletteFormat::IA8),
        Err(TplError::BufferTooSmall)
    );
    assert_eq!(dst, vec![7u8; 8 * 4 * 4]);
    assert_eq!(
        decode_texture_c4(&mut dst, &src, 8, 8, &tlut, PaletteFormat::IA8),
        Err(TplError::BufferTooSmall)
    );
    assert_eq!(
        decode_texture_c14x2(&mut dst, &src, 4, 4, &tlut, PaletteFormat::IA8),
        Err(TplError::BufferTooSmall)
    );
    // One pixel still takes a whole tile.
    assert_eq!(
        decode_texture_c8(&mut dst, &src, 1, 1, &tlut, PaletteFormat::IA8),
        Err(TplError::BufferTooSmall)
    );
}

#[test]
fn short_destination_is_refused() {
    let tlut = grey_palette(256);
    let src = vec![0u8; 32];
    let mut dst = vec![7u8; 8 * 4 * 4 - 1];
    assert_eq!(
        decode_texture_c8(&mut dst, &src, 8, 4, &tlut, PaletteFormat::IA8),
        Err(TplError::BufferTooSmall)
    );
    assert_eq!(dst, vec![7u8; 8 * 4 * 4 - 1]);
}

#[test]
fn index_past_the_palette_is_refused() {
    let mut src = vec![0u8; 32];
    src[31] = 4;
    let tlut = grey_palette(4);
    let mut dst = vec![7u8; 8 * 4 * 4];
    assert_eq!(
        decode_texture_c8(&mut dst, &src, 8, 4, &tlut, PaletteFormat::IA8),
        Err(TplError::BufferTooSmall)
    );
    assert_eq!(dst, vec![7u8; 8 * 4 * 4]);
    src[31] = 3;
    assert_eq!(decode_texture_c8(&mut dst, &src, 8, 4, &tlut, PaletteFormat::IA8), Ok(()));
}

#[test]
fn half_a_palette_entry_does_not_count() {
    let src = vec![0u8; 32];
    let tlut = vec![0u8; 1];
    let mut dst = vec![7u8; 8 * 4 * 4];
    assert_eq!(
        decode_texture_c8(&mut dst, &src, 8, 4, &tlut, PaletteFormat::IA8),
        Err(TplError::BufferTooSmall)
    );
}

#[test]
fn empty_palette_is_refused() {
    let src = vec![0u8; 32];
    let tlut: Vec<u8> = Vec::new();
    let mut dst = vec![7u8; 8 * 8 * 4];
    assert_eq!(
        decode_texture_c4(&mut dst, &src, 8, 8, &tlut, PaletteFormat::IA8),
        Err(TplError::BufferTooSmall)
    );
    assert_eq!(
        decode_texture_c8(&mut dst, &src, 8, 4, &tlut, PaletteFormat::RGB565),
        Err(TplError::BufferTooSmall)
    );
    assert_eq!(
        decode_texture_c14x2(&mut dst, &src, 4, 4, &tlut, PaletteFormat::RGB5A3),
        Err(TplError::BufferTooSmall)
    );
    assert_eq!(dst, vec![7u8; 8 * 8 * 4]);
}

#[test]
fn image_without_pixels_decodes_to_nothing() {
    let src: Vec<u8> = Vec::new();
    let tlut: Vec<u8> = Vec::new();
    let mut dst = vec![7u8; 3];
    assert_eq!(decode_texture_c4(&mut dst, &src, 0, 8, &tlut, PaletteFormat::IA8), Ok(()));
    assert_eq!(decode_texture_c8(&mut dst, &src, 8, 0, &tlut, PaletteFormat::IA8), Ok(()));
    assert_eq!(decode_texture_c14x2(&mut dst, &src, 0, 0, &tlut, PaletteFormat::IA8), Ok(()));
    assert_eq!(dst, vec![7u8; 3]);
}

#[test]
fn exact_buffers_are_filled_and_nothing_more_is_read() {
    let tlut = grey_palette(256);
    for (w, h) in [(8usize, 8usize), (16, 8), (8, 16), (24, 16)] {
        let src4 = vec![0x55u8; (w / 8) * (h / 8) * 32];
        let mut dst = vec![0u8; w * h * 4];
        assert_eq!(decode_texture_c4(&mut dst, &src4, w, h, &tlut, PaletteFormat::IA8), Ok(()));
        assert_eq!(dst.len(), w * h * 4);
        assert!(dst.chunks(4).all(|p| p == grey_pixel(5)));
        let src8 = vec![9u8; (w / 8) * (h / 4) * 32];
        let mut dst = vec![0u8; w * h * 4];
        assert_eq!(decode_texture_c8(&mut dst, &src8, w, h, &tlut, PaletteFormat::IA8), Ok(()));
        assert!(dst.chunks(4).all(|p| p == grey_pixel(9)));
        let mut src14 = vec![0u8; (w / 4) * (h / 4) * 32];
        for i in 0..src14.len() / 2 {
            src14[2 * i + 1] = 17;
        }
        let mut dst = vec![0u8; w * h * 4];
        assert_eq!(
            decode_texture_c14x2(&mut dst, &src14, w, h, &tlut, PaletteFormat::IA8),
            Ok(())
        );
        assert!(dst.chunks(4).all(|p| p == grey_pixel(17)));
    }
}
