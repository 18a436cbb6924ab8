use gctpl::codec::{decode_direct, encode_direct};
use gctpl::types::{ImageHeader, TextureFormat, TplError};

fn header(format: TextureFormat, width: u16, height: u16) -> ImageHeader {
    ImageHeader { format, width, height, ..ImageHeader::default() }
}

#[test]
fn image_sizes_count_whole_blocks() {
    assert_eq!(header(TextureFormat::C8, 128, 128).image_size(), 16384);
    assert_eq!(header(TextureFormat::I4, 8, 8).image_size(), 32);
    assert_eq!(header(TextureFormat::I4, 9, 8).image_size(), 64);
    assert_eq!(header(TextureFormat::I8, 8, 4).image_size(), 32);
    assert_eq!(header(TextureFormat::IA4, 8, 5).image_size(), 64);
    assert_eq!(header(TextureFormat::IA8, 4, 4).image_size(), 32);
    assert_eq!(header(TextureFormat::RGB565, 5, 4).image_size(), 64);
    assert_eq!(header(TextureFormat::RGB5A3, 2, 2).image_size(), 32);
    assert_eq!(header(TextureFormat::RGBA8, 4, 4).image_size(), 64);
    assert_eq!(header(TextureFormat::C4, 8, 8).image_size(), 32);
    assert_eq!(header(TextureFormat::C14X2, 4, 4).image_size(), 32);
    assert_eq!(header(TextureFormat::CMPR, 8, 8).image_size(), 32);
    assert_eq!(header(TextureFormat::CMPR, 16, 16).image_size(), 128);
    assert_eq!(header(TextureFormat::RGBA8, 0, 7).image_size(), 0);
}

#[test]
fn checked_image_size_stops_at_32_bits() {
    assert_eq!(header(TextureFormat::C8, 128, 128).checked_image_size(), Some(16384));
    assert_eq!(header(TextureFormat::I4, 65535, 65535).checked_image_size(), Some(0x8000_0000));
    assert_eq!(header(TextureFormat::I8, 65535, 65535).checked_image_size(), None);
    assert_eq!(header(TextureFormat::RGB565, 65535, 65535).checked_image_size(), None);
    assert_eq!(header(TextureFormat::RGBA8, 65535, 65535).checked_image_size(), None);
    assert_eq!(header(TextureFormat::RGBA8, 32768, 8192).checked_image_size(), Some(0x4000_0000));
    assert_eq!(header(TextureFormat::RGBA8, 65535, 16384).checked_image_size(), None);
    assert_eq!(header(TextureFormat::RGBA8, 65535, 16380).checked_image_size(), Some(0xFFF0_0000));
}

#[test]
fn image_format_is_the_number_of_the_format() {
    assert_eq!(header(TextureFormat::I4, 1, 1).image_format(), 0);
    assert_eq!(header(TextureFormat::RGBA8, 1, 1).image_format(), 6);
    assert_eq!(header(TextureFormat::C4, 1, 1).image_format(), 8);
    assert_eq!(header(TextureFormat::CMPR, 1, 1).image_format(), 14);
}

#[test]
fn rgba8_is_stored_in_two_planes() {
    let rgba: Vec<u8> = (0u8..64).collect();
    let raw = encode_direct(TextureFormat::RGBA8, &rgba, 4, 4).unwrap();
    assert_eq!(raw.len(), 64);
    for p in 0..16 {
        assert_eq!(raw[2 * p], rgba[4 * p + 3]);
        assert_eq!(raw[2 * p + 1], rgba[4 * p]);
        assert_eq!(raw[32 + 2 * p], rgba[4 * p + 1]);
        assert_eq!(raw[32 + 2 * p + 1], rgba[4 * p + 2]);
    }
    assert_eq!(decode_direct(TextureFormat::RGBA8, &raw, 4, 4), Ok(rgba));
}

#[test]
fn rgb565_drops_the_low_bits() {
    let mut rgba = vec![0u8; 64];
    rgba[0] = 0xFF;
    rgba[1] = 0x80;
    rgba[2] = 0x08;
    rgba[3] = 0x33;
    let raw = encode_direct(TextureFormat::RGB565, &rgba, 4, 4).unwrap();
    assert_eq!(raw.len(), 32);
    assert_eq!(raw[0], 0xFC);
    assert_eq!(raw[1], 0x01);
    let back = decode_direct(TextureFormat::RGB565, &raw, 4, 4).unwrap();
    assert_eq!(back.len(), 64);
    assert_eq!(&back[..4], &[255, 130, 8, 255]);
}

#[test]
fn i8_keeps_grey_levels() {
    let mut rgba = vec![0u8; 8 * 4 * 4];
    for p in 0..32 {
        let v = (p * 8) as u8;
        rgba[4 * p] = v;
        rgba[4 * p + 1] = v;
        rgba[4 * p + 2] = v;
        rgba[4 * p + 3] = 255;
    }
    let raw = encode_direct(TextureFormat::I8, &rgba, 8, 4).unwrap();
    assert_eq!(raw.len(), 32);
    let back = decode_direct(TextureFormat::I8, &raw, 8, 4).unwrap();
    assert_eq!(back.len(), 128);
    for p in 0..32 {
        let v = back[4 * p];
        assert!((v as i32 - (p as i32 * 8)).abs() <= 1);
        assert_eq!(back[4 * p + 1], v);
        assert_eq!(back[4 * p + 2], v);
    }
}

#[test]
fn every_direct_format_encodes_to_its_size() {
    let rgba = vec![0x7Fu8; 16 * 16 * 4];
    for format in [
        TextureFormat::I4,
        TextureFormat::I8,
        TextureFormat::IA4,
        TextureFormat::IA8,
        TextureFormat::RGB565,
        TextureFormat::RGB5A3,
        TextureFormat::RGBA8,
        TextureFormat::CMPR,
    ] {
        let h = header(format, 16, 16);
        let raw = encode_direct(format, &rgba, 16, 16).unwrap();
        assert_eq!(raw.len(), h.image_size() as usize);
        let back = decode_direct(format, &raw, 16, 16).unwrap();
        assert_eq!(back.len(), 16 * 16 * 4);
    }
}

#[test]
fn sizes_that_are_no_multiple_of_a_block_round_trip() {
    let rgba: Vec<u8> = (0..5 * 3 * 4).map(|i| (i * 3) as u8).collect();
    let raw = encode_direct(TextureFormat::RGBA8, &rgba, 5, 3).unwrap();
    assert_eq!(raw.len(), 128);
    assert_eq!(decode_direct(TextureFormat::RGBA8, &raw, 5, 3), Ok(rgba));
}

#[test]
fn decode_reads_only_the_blocks_of_the_image() {
    let rgba: Vec<u8> = (0u8..64).collect();
    let mut raw = encode_direct(TextureFormat::RGBA8, &rgba, 4, 4).unwrap();
    raw.extend_from_slice(&[0xAB; 10]);
    assert_eq!(decode_direct(TextureFormat::RGBA8, &raw, 4, 4), Ok(rgba));
}

#[test]
fn indexed_formats_have_no_codec_rule() {
    let rgba = vec![0u8; 8 * 8 * 4];
    for format in [TextureFormat::C4, TextureFormat::C8, TextureFormat::C14X2] {
        assert_eq!(encode_direct(format, &rgba, 8, 8), Err(TplError::UnsupportedFormat));
        assert_eq!(decode_direct(format, &rgba, 8, 8), Err(TplError::UnsupportedFormat));
    }
}

#[test]
fn images_past_32_bits_have_no_codec_rule() {
    let none: Vec<u8> = Vec::new();
    assert_eq!(
        encode_direct(TextureFormat::RGBA8, &none, 65535, 65535),
        Err(TplError::UnsupportedFormat)
    );
    assert_eq!(
        decode_direct(TextureFormat::I8, &none, 65535, 65535),
        Err(TplError::UnsupportedFormat)
    );
    assert_eq!(
        decode_direct(TextureFormat::I8, &none, 32768, 32764),
        Err(TplError::BufferTooSmall)
    );
}

#[test]
fn cmpr_needs_a_pixel() {
    let none: Vec<u8> = Vec::new();
    assert_eq!(encode_direct(TextureFormat::CMPR, &none, 0, 8), Err(TplError::UnsupportedFormat));
    assert_eq!(encode_direct(TextureFormat::CMPR, &none, 8, 0), Err(TplError::UnsupportedFormat));
    assert_eq!(encode_direct(TextureFormat::I8, &none, 0, 8), Ok(Vec::new()));
    assert_eq!(decode_direct(TextureFormat::CMPR, &none, 0, 8), Ok(Vec::new()));
}

#[test]
fn short_buffers_are_refused() {
    let rgba = vec![0u8; 4 * 4 * 4 - 1];
    assert_eq!(encode_direct(TextureFormat::RGBA8, &rgba, 4, 4), Err(TplError::BufferTooSmall));
    let raw = vec![0u8; 63];
    assert_eq!(decode_direct(TextureFormat::RGBA8, &raw, 4, 4), Err(TplError::BufferTooSmall));
    assert_eq!(decode_direct(TextureFormat::RGBA8, &raw, 1, 1), Err(TplError::BufferTooSmall));
}

#[test]
fn image_without_pixels_decodes_to_no_bytes() {
    let none: Vec<u8> = Vec::new();
    let some = vec![0x5Au8; 64];
    for format in [
        TextureFormat::I4,
        TextureFormat::I8,
        TextureFormat::IA4,
        TextureFormat::IA8,
        TextureFormat::RGB565,
        TextureFormat::RGB5A3,
        TextureFormat::RGBA8,
        TextureFormat::CMPR,
    ] {
        assert_eq!(decode_direct(format, &none, 0, 0), Ok(Vec::new()));
        assert_eq!(decode_direct(format, &none, 0, 5), Ok(Vec::new()));
        assert_eq!(decode_direct(format, &none, 9, 0), Ok(Vec::new()));
        assert_eq!(decode_direct(format, &some, 0, 65535), Ok(Vec::new()));
    }
    assert_eq!(decode_direct(TextureFormat::C8, &none, 0, 0), Err(TplError::UnsupportedFormat));
}

#[test]
fn ia4_decodes_alpha_and_intensity() {
    // One tile of 8 by 4 pixels; every byte holds alpha high, intensity low.
    let mut raw = vec![0u8; 32];
    raw[0] = 0xF0;
    raw[1] = 0x0F;
    raw[31] = 0x5A;
    let pixels = decode_direct(TextureFormat::IA4, &raw, 8, 4).unwrap();
    assert_eq!(pixels.len(), 8 * 4 * 4);
    assert_eq!(&pixels[..4], &[0, 0, 0, 255]);
    assert_eq!(&pixels[4..8], &[255, 255, 255, 0]);
    assert_eq!(&pixels[124..], &[0xAA, 0xAA, 0xAA, 0x55]);
    // The source need not start where an allocation starts.
    let mut shifted = vec![0u8; 33];
    shifted[1..].copy_from_slice(&raw);
    assert_eq!(decode_direct(TextureFormat::IA4, &shifted[1..], 8, 4), Ok(pixels));
    let one = decode_direct(TextureFormat::IA4, &raw, 1, 1).unwrap();
    assert_eq!(one, vec![0, 0, 0, 255]);
}

#[test]
fn decoded_length_is_four_bytes_a_pixel() {
    let raw = vec![0x11u8; 4096];
    for format in [
        TextureFormat::I4,
        TextureFormat::I8,
        TextureFormat::IA4,
        TextureFormat::IA8,
        TextureFormat::RGB565,
        TextureFormat::RGB5A3,
        TextureFormat::RGBA8,
        TextureFormat::CMPR,
    ] {
        for (w, h) in [(1u16, 1u16), (2, 2), (3, 7), (8, 8), (9, 5), (16, 4)] {
            let pixels = decode_direct(format, &raw[1..], w, h).unwrap();
            assert_eq!(pixels.len(), 4 * w as usize * h as usize);
        }
    }
}
