use gctpl::stream::{put_u16, put_u32, put_u8, ByteCursor};
use gctpl::types::{
    FileHeader, FilterMode, ImageHeader, ImageNode, ImageOffset, PaletteFormat, PaletteHeader,
    TextureFormat, TplError, WrapMode, TPL,
};

#[test]
fn integers_are_written_big_endian() {
    let mut out = vec![0xEEu8];
    put_u16(&mut out, 0x1234);
    put_u32(&mut out, 0x89AB_CDEF);
    put_u8(&mut out, 0x56);
    put_u32(&mut out, 2142000);
    assert_eq!(out, vec![0xEE, 0x12, 0x34, 0x89, 0xAB, 0xCD, 0xEF, 0x56, 0x00, 0x20, 0xAF, 0x30]);
}

#[test]
fn cursor_reads_big_endian_and_stops_at_the_end() {
    let bytes = [0x12u8, 0x34, 0x89, 0xAB, 0xCD, 0xEF, 0x56, 0x78, 0x9A];
    let mut cursor = ByteCursor::new(&bytes);
    assert_eq!(cursor.stream_position(), 0);
    assert_eq!(cursor.remaining(), 9);
    assert_eq!(cursor.read_u16(), Ok(0x1234));
    assert_eq!(cursor.read_u32(), Ok(0x89AB_CDEF));
    assert_eq!(cursor.read_u8(), Ok(0x56));
    assert_eq!(cursor.stream_position(), 7);
    assert_eq!(cursor.read_u32(), Err(TplError::IOError));
    assert_eq!(cursor.stream_position(), 7);
    assert_eq!(cursor.read_exact(3), Err(TplError::IOError));
    assert_eq!(cursor.read_exact(2), Ok(vec![0x78, 0x9A]));
    assert_eq!(cursor.remaining(), 0);
    assert_eq!(cursor.read_u8(), Err(TplError::IOError));
    assert_eq!(cursor.read_u16(), Err(TplError::IOError));
    assert_eq!(cursor.read_exact(0), Ok(Vec::new()));
    assert_eq!(cursor.seek(10), Err(TplError::IOError));
    assert_eq!(cursor.stream_position(), 9);
    assert_eq!(cursor.seek(9), Ok(()));
    assert_eq!(cursor.seek(1), Ok(()));
    assert_eq!(cursor.read_u16(), Ok(0x3489));
    assert_eq!(cursor.read_exact(usize::MAX), Err(TplError::IOError));
}

#[test]
fn records_are_written_field_by_field() {
    let mut out = Vec::new();
    FileHeader { identifier: 2142000, image_count: 1, image_offset: 12 }.write_be(&mut out);
    assert_eq!(out, vec![0x00, 0x20, 0xAF, 0x30, 0, 0, 0, 1, 0, 0, 0, 12]);
    let mut out = Vec::new();
    ImageOffset { image_header_offset: 0x0102_0304, palette_header_offset: 7 }.write_be(&mut out);
    assert_eq!(out, vec![1, 2, 3, 4, 0, 0, 0, 7]);
    let mut out = Vec::new();
    PaletteHeader {
        entry_count: 0x0102,
        unpacked: 3,
        padding: 4,
        palette_format: PaletteFormat::RGB5A3,
        palette_data_offset: 0x0506_0708,
    }
    .write_be(&mut out);
    assert_eq!(out, vec![1, 2, 3, 4, 0, 0, 0, 2, 5, 6, 7, 8]);
    let mut out = vec![0xEE];
    let header = ImageHeader {
        height: 0x0102,
        width: 0x0304,
        format: TextureFormat::CMPR,
        image_data_offset: 0x0506_0708,
        wrap_s: WrapMode::Repeat,
        wrap_t: WrapMode::Mirror,
        min_filter: FilterMode::LinearMipmapLinear,
        mag_filter: FilterMode::Nearest,
        lod_bias: 0xBF80_0000,
        edge_lod_enable: 9,
        min_lod: 10,
        max_lod: 11,
        unpacked: 12,
    };
    header.write_be(&mut out);
    assert_eq!(
        out,
        vec![
            0xEE, 1, 2, 3, 4, 0, 0, 0, 14, 5, 6, 7, 8, 0, 0, 0, 1, 0, 0, 0, 2, 0, 0, 0, 5, 0, 0, 0,
            0, 0xBF, 0x80, 0, 0, 9, 10, 11, 12
        ]
    );
    let mut cursor = ByteCursor::new(&out);
    assert_eq!(cursor.seek(1), Ok(()));
    assert_eq!(ImageHeader::read_be(&mut cursor), Ok(header));
    assert_eq!(cursor.stream_position(), 37);
}

#[test]
fn records_are_read_back() {
    let palette = PaletteHeader {
        entry_count: 300,
        unpacked: 1,
        padding: 2,
        palette_format: PaletteFormat::RGB565,
        palette_data_offset: 0xFFFF_FFFF,
    };
    let mut out = Vec::new();
    palette.write_be(&mut out);
    let mut cursor = ByteCursor::new(&out);
    assert_eq!(PaletteHeader::read_be(&mut cursor), Ok(palette));
    assert_eq!(cursor.stream_position(), 12);
    let file = FileHeader { identifier: 0xDEAD_BEEF, image_count: 0xFFFF_FFFF, image_offset: 3 };
    let mut out = Vec::new();
    file.write_be(&mut out);
    let mut cursor = ByteCursor::new(&out);
    assert_eq!(FileHeader::read_be(&mut cursor), Ok(file));
    let entry = ImageOffset { image_header_offset: 5, palette_header_offset: 0x8000_0000 };
    let mut out = Vec::new();
    entry.write_be(&mut out);
    let mut cursor = ByteCursor::new(&out);
    assert_eq!(ImageOffset::read_be(&mut cursor), Ok(entry));
    assert_eq!(ImageOffset::read_be(&mut cursor), Err(TplError::IOError));
}

#[test]
fn numbers_name_the_variants() {
    let formats = [
        (TextureFormat::I4, 0u32),
        (TextureFormat::I8, 1),
        (TextureFormat::IA4, 2),
        (TextureFormat::IA8, 3),
        (TextureFormat::RGB565, 4),
        (TextureFormat::RGB5A3, 5),
        (TextureFormat::RGBA8, 6),
        (TextureFormat::C4, 8),
        (TextureFormat::C8, 9),
        (TextureFormat::C14X2, 10),
        (TextureFormat::CMPR, 14),
    ];
    for (format, code) in formats {
        assert_eq!(format.to_u32(), code);
        assert_eq!(TextureFormat::from_u32(code), Some(format));
    }
    for code in [7u32, 11, 12, 13, 15, 0xFF, 0xFFFF_FFFF] {
        assert_eq!(TextureFormat::from_u32(code), None);
    }
    assert!(TextureFormat::C4.is_indexed());
    assert!(TextureFormat::C8.is_indexed());
    assert!(TextureFormat::C14X2.is_indexed());
    assert!(!TextureFormat::CMPR.is_indexed());
    assert!(!TextureFormat::IA8.is_indexed());
    let palettes =
        [(PaletteFormat::IA8, 0u32), (PaletteFormat::RGB565, 1), (PaletteFormat::RGB5A3, 2)];
    for (format, code) in palettes {
        assert_eq!(format.to_u32(), code);
        assert_eq!(PaletteFormat::from_u32(code), Some(format));
    }
    assert_eq!(PaletteFormat::from_u32(3), None);
    let wraps = [(WrapMode::Clamp, 0u32), (WrapMode::Repeat, 1), (WrapMode::Mirror, 2)];
    for (wrap, code) in wraps {
        assert_eq!(wrap.to_u32(), code);
        assert_eq!(WrapMode::from_u32(code), Some(wrap));
    }
    assert_eq!(WrapMode::from_u32(3), None);
    let filters = [
        (FilterMode::Nearest, 0u32),
        (FilterMode::Linear, 1),
        (FilterMode::NearestMipmapNearest, 2),
        (FilterMode::NearestMipmapLinear, 3),
        (FilterMode::LinearMipmapNearest, 4),
        (FilterMode::LinearMipmapLinear, 5),
    ];
    for (filter, code) in filters {
        assert_eq!(filter.to_u32(), code);
        assert_eq!(FilterMode::from_u32(code), Some(filter));
    }
    assert_eq!(FilterMode::from_u32(6), None);
}

#[test]
fn defaults_are_the_plain_values() {
    assert_eq!(PaletteFormat::default(), PaletteFormat::IA8);
    assert_eq!(WrapMode::default(), WrapMode::Clamp);
    assert_eq!(FilterMode::default(), FilterMode::Linear);
    assert_eq!(TextureFormat::default(), TextureFormat::RGB5A3);
    assert_eq!(
        FileHeader::default(),
        FileHeader { identifier: 0, image_count: 0, image_offset: 0 }
    );
    let node = ImageNode::default();
    assert_eq!(node.offset, ImageOffset::default());
    assert!(!node.offset.has_palette());
    assert_eq!(node.palette_header, None);
    assert_eq!(node.image_header.format, TextureFormat::RGB5A3);
    assert_eq!(node.image_header.min_filter, FilterMode::Linear);
    assert_eq!(node.image_header.wrap_t, WrapMode::Clamp);
    assert_eq!(node.image_header.width, 0);
    assert_eq!(PaletteHeader::default().palette_format, PaletteFormat::IA8);
    let tpl = TPL::default();
    assert!(tpl.nodes.is_empty());
    assert!(tpl.image_datas.is_empty());
    assert!(tpl.palette_datas.is_empty());
}
