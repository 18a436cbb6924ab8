//! Decoding of palette-indexed textures into RGBA8888 pixels.
//!
//! A pixel is handled as one `u32` that holds red in its lowest byte, then
//! green, blue and alpha, and is stored in that order, one byte per channel.

use crate::tiling::{
    indexed_source_len, lemma_next_tile_line, lemma_pixel_coords, lemma_raster_number,
    lemma_source_row_in_source, lemma_source_row_names_tile_row, palette_index, row_index, source_row, tiles_across, tiles_down, IndexedFormat,
};
use crate::types::{PaletteFormat, TplError};
use vstd::prelude::*;

verus! {

/// A 5-bit value widened to 8 bits by repeating its high bits below it.
pub open spec fn spec_convert5to8(v: u8) -> u8 {
    (v << 3) | (v >> 2)
}

/// A 6-bit value widened to 8 bits by repeating its high bits below it.
pub open spec fn spec_convert6to8(v: u8) -> u8 {
    (v << 2) | (v >> 4)
}

/// A 3-bit value widened to 8 bits by repeating it.
pub open spec fn spec_convert3to8(v: u8) -> u8 {
    (v << 5) | (v << 2) | (v >> 1)
}

/// A 4-bit value widened to 8 bits by repeating it.
pub open spec fn spec_convert4to8(v: u8) -> u8 {
    (v << 4) | v
}

/// Widens a 5-bit value to 8 bits.
pub fn convert5to8(v: u8) -> (r: u8)
    ensures
        r == spec_convert5to8(v),
{
    (v << 3) | (v >> 2)
}

/// Widens a 6-bit value to 8 bits.
pub fn convert6to8(v: u8) -> (r: u8)
    ensures
        r == spec_convert6to8(v),
{
    (v << 2) | (v >> 4)
}

/// Widens a 3-bit value to 8 bits.
pub fn convert3to8(v: u8) -> (r: u8)
    ensures
        r == spec_convert3to8(v),
{
    (v << 5) | (v << 2) | (v >> 1)
}

/// Widens a 4-bit value to 8 bits.
pub fn convert4to8(v: u8) -> (r: u8)
    ensures
        r == spec_convert4to8(v),
{
    (v << 4) | v
}

/// Widening 5 bits to 8 keeps the order of any two values, takes 0 to 0 and
/// the largest value, 31, to 255.
pub proof fn lemma_convert5to8_order(a: u8, b: u8)
    by (bit_vector)
    requires
        a <= b,
        b < 32,
    ensures
        spec_convert5to8(a) <= spec_convert5to8(b),
        spec_convert5to8(0) == 0,
        spec_convert5to8(31) == 255,
{
}

/// Widening 6 bits to 8 keeps the order of any two values, takes 0 to 0 and
/// the largest value, 63, to 255.
pub proof fn lemma_convert6to8_order(a: u8, b: u8)
    by (bit_vector)
    requires
        a <= b,
        b < 64,
    ensures
        spec_convert6to8(a) <= spec_convert6to8(b),
        spec_convert6to8(0) == 0,
        spec_convert6to8(63) == 255,
{
}

/// Widening 4 bits to 8 keeps the order of any two values, takes 0 to 0 and
/// the largest value, 15, to 255.
pub proof fn lemma_convert4to8_order(a: u8, b: u8)
    by (bit_vector)
    requires
        a <= b,
        b < 16,
    ensures
        spec_convert4to8(a) <= spec_convert4to8(b),
        spec_convert4to8(0) == 0,
        spec_convert4to8(15) == 255,
{
}

/// Widening 3 bits to 8 keeps the order of any two values, takes 0 to 0 and
/// the largest value, 7, to 255.
pub proof fn lemma_convert3to8_order(a: u8, b: u8)
    by (bit_vector)
    requires
        a <= b,
        b < 8,
    ensures
        spec_convert3to8(a) <= spec_convert3to8(b),
        spec_convert3to8(0) == 0,
        spec_convert3to8(7) == 255,
{
}

/// The pixel with the given channels.
pub open spec fn pack_rgba(r: u8, g: u8, b: u8, a: u8) -> u32 {
    (r as u32) | ((g as u32) << 8) | ((b as u32) << 16) | ((a as u32) << 24)
}

/// Channel `c` of a pixel: 0 is red, 1 green, 2 blue, 3 alpha.
pub open spec fn pixel_channel(pixel: u32, c: int) -> u8 {
    if c == 0 {
        (pixel & 0xFF) as u8
    } else if c == 1 {
        ((pixel >> 8) & 0xFF) as u8
    } else if c == 2 {
        ((pixel >> 16) & 0xFF) as u8
    } else {
        ((pixel >> 24) & 0xFF) as u8
    }
}

/// A packed pixel gives back the channels it was made of.
pub proof fn lemma_pack_rgba_channels(r: u8, g: u8, b: u8, a: u8)
    ensures
        pixel_channel(pack_rgba(r, g, b, a), 0) == r,
        pixel_channel(pack_rgba(r, g, b, a), 1) == g,
        pixel_channel(pack_rgba(r, g, b, a), 2) == b,
        pixel_channel(pack_rgba(r, g, b, a), 3) == a,
{
    let p = pack_rgba(r, g, b, a);
    assert((p & 0xFF) as u8 == r && ((p >> 8) & 0xFF) as u8 == g && ((p >> 16) & 0xFF) as u8 == b
        && ((p >> 24) & 0xFF) as u8 == a) by (bit_vector)
        requires
            p == (r as u32) | ((g as u32) << 8) | ((b as u32) << 16) | ((a as u32) << 24),
    ;
}

/// An IA8 entry, given as its two stored bytes read little-endian: alpha,
/// the first stored byte, in the low byte and intensity in the high byte.
/// The intensity becomes red, green and blue.
pub open spec fn spec_decodepixel_ia8(val: u16) -> u32 {
    let a = (val & 0xFF) as u8;
    let i = (val >> 8) as u8;
    pack_rgba(i, i, i, a)
}

/// An RGB565 entry, given by its big-endian value: red in bits 15 to 11, green in bits 10 to 5, blue in
/// bits 4 to 0, each widened to 8 bits; always opaque.
pub open spec fn spec_decodepixel_rgb565(val: u16) -> u32 {
    pack_rgba(
        spec_convert5to8(((val >> 11) & 0x1f) as u8),
        spec_convert6to8(((val >> 5) & 0x3f) as u8),
        spec_convert5to8((val & 0x1f) as u8),
        0xFF,
    )
}

/// An RGB5A3 entry, given by its big-endian value. With bit 15 set it is
/// opaque and holds five bits each of red (14 to 10), green (9 to 5) and
/// blue (4 to 0). With bit 15 clear it holds three bits of alpha (14 to 12)
/// and four bits each of red (11 to 8), green (7 to 4) and blue (3 to 0).
pub open spec fn spec_decodepixel_rgb5a3(val: u16) -> u32 {
    if val & 0x8000 != 0 {
        pack_rgba(
            spec_convert5to8(((val >> 10) & 0x1f) as u8),
            spec_convert5to8(((val >> 5) & 0x1f) as u8),
            spec_convert5to8((val & 0x1f) as u8),
            0xFF,
        )
    } else {
        pack_rgba(
            spec_convert4to8(((val >> 8) & 0xf) as u8),
            spec_convert4to8(((val >> 4) & 0xf) as u8),
            spec_convert4to8((val & 0xf) as u8),
            spec_convert3to8(((val >> 12) & 0x7) as u8),
        )
    }
}

/// A 16-bit word with its two bytes exchanged.
pub open spec fn spec_swap_bytes(v: u16) -> u16 {
    (v << 8) | (v >> 8)
}

/// The pixel of a palette entry. `pixel` is the entry as its two stored bytes
/// read little-endian, the first byte in the low half. An IA8 entry is taken
/// as it is. Of an RGB565 or RGB5A3 entry the bytes are exchanged first,
/// which gives the big-endian value that it is stored as.
pub open spec fn spec_decodepixel_paletted(pixel: u16, format: PaletteFormat) -> u32 {
    match format {
        PaletteFormat::IA8 => spec_decodepixel_ia8(pixel),
        PaletteFormat::RGB565 => spec_decodepixel_rgb565(spec_swap_bytes(pixel)),
        PaletteFormat::RGB5A3 => spec_decodepixel_rgb5a3(spec_swap_bytes(pixel)),
    }
}

fn pack(r: u8, g: u8, b: u8, a: u8) -> (p: u32)
    ensures
        p == pack_rgba(r, g, b, a),
{
    (r as u32) | ((g as u32) << 8) | ((b as u32) << 16) | ((a as u32) << 24)
}

fn swap_bytes(v: u16) -> (r: u16)
    ensures
        r == spec_swap_bytes(v),
{
    (v << 8) | (v >> 8)
}

/// The pixel of an IA8 entry, given as its two stored bytes read
/// little-endian.
pub fn decodepixel_ia8(val: u16) -> (p: u32)
    ensures
        p == spec_decodepixel_ia8(val),
{
    let a = (val & 0xFF) as u8;
    let i = (val >> 8) as u8;
    pack(i, i, i, a)
}

/// The pixel of an RGB565 entry, given by its big-endian value.
pub fn decodepixel_rgb565(val: u16) -> (p: u32)
    ensures
        p == spec_decodepixel_rgb565(val),
{
    let r = convert5to8(((val >> 11) & 0x1f) as u8);
    let g = convert6to8(((val >> 5) & 0x3f) as u8);
    let b = convert5to8((val & 0x1f) as u8);
    pack(r, g, b, 0xFF)
}

/// The pixel of an RGB5A3 entry, given by its big-endian value.
pub fn decodepixel_rgb5a3(val: u16) -> (p: u32)
    ensures
        p == spec_decodepixel_rgb5a3(val),
{
    if val & 0x8000 != 0 {
        let r = convert5to8(((val >> 10) & 0x1f) as u8);
        let g = convert5to8(((val >> 5) & 0x1f) as u8);
        let b = convert5to8((val & 0x1f) as u8);
        pack(r, g, b, 0xFF)
    } else {
        let a = convert3to8(((val >> 12) & 0x7) as u8);
        let r = convert4to8(((val >> 8) & 0xf) as u8);
        let g = convert4to8(((val >> 4) & 0xf) as u8);
        let b = convert4to8((val & 0xf) as u8);
        pack(r, g, b, a)
    }
}

/// The pixel of a palette entry, given as its two stored bytes read
/// little-endian.
pub fn decodepixel_paletted(pixel: u16, format: PaletteFormat) -> (p: u32)
    ensures
        p == spec_decodepixel_paletted(pixel, format),
{
    match format {
        PaletteFormat::IA8 => decodepixel_ia8(pixel),
        PaletteFormat::RGB565 => decodepixel_rgb565(swap_bytes(pixel)),
        PaletteFormat::RGB5A3 => decodepixel_rgb5a3(swap_bytes(pixel)),
    }
}

/// Number of entries that a palette of these bytes holds.
pub open spec fn palette_len(tlut: Seq<u8>) -> int {
    tlut.len() as int / 2
}

/// Entry `k` of a palette as its two stored bytes read little-endian.
pub open spec fn palette_word(tlut: Seq<u8>, k: int) -> u16 {
    (tlut[2 * k] as int + 256 * (tlut[2 * k + 1] as int)) as u16
}

/// The pixel at `(px, py)` of an indexed texture `width` pixels wide.
pub open spec fn indexed_pixel(
    kind: IndexedFormat,
    src: Seq<u8>,
    width: int,
    tlut: Seq<u8>,
    format: PaletteFormat,
    px: int,
    py: int,
) -> u32 {
    spec_decodepixel_paletted(palette_word(tlut, palette_index(kind, src, width, px, py)), format)
}

/// Byte `i` of the decoded image: the pixels in raster order, four bytes each.
pub open spec fn indexed_decoded_byte(
    kind: IndexedFormat,
    src: Seq<u8>,
    width: int,
    tlut: Seq<u8>,
    format: PaletteFormat,
    i: int,
) -> u8 {
    pixel_channel(
        indexed_pixel(kind, src, width, tlut, format, (i / 4) % width, (i / 4) / width),
        i % 4,
    )
}

/// Whether an indexed texture can be decoded: the destination holds the
/// image, the source holds every tile, and every pixel of the image names an
/// entry that the palette has.
pub open spec fn indexed_decodable(
    kind: IndexedFormat,
    dst_len: int,
    src: Seq<u8>,
    width: int,
    height: int,
    tlut: Seq<u8>,
) -> bool {
    &&& 4 * (width * height) <= dst_len
    &&& indexed_source_len(kind, width, height) <= src.len()
    &&& forall|px: int, py: int|
        0 <= px < width && 0 <= py < height ==> #[trigger] palette_index(kind, src, width, px, py)
            < palette_len(tlut)
}

/// What a decoder leaves in the destination: the image in its first
/// `4 * width * height` bytes, and what was there before in the rest.
pub open spec fn indexed_decoded(
    kind: IndexedFormat,
    before: Seq<u8>,
    after: Seq<u8>,
    src: Seq<u8>,
    width: int,
    height: int,
    tlut: Seq<u8>,
    format: PaletteFormat,
) -> bool {
    &&& after.len() == before.len()
    &&& forall|i: int|
        0 <= i < after.len() ==> #[trigger] after[i] == if i < 4 * (width * height) {
            indexed_decoded_byte(kind, src, width, tlut, format, i)
        } else {
            before[i]
        }
}

/// `after` is `before` with `count` pixels, from pixel number `first` on,
/// replaced by the first `count` pixels of the tile row at byte `at`.
pub open spec fn row_decoded(
    kind: IndexedFormat,
    before: Seq<u8>,
    after: Seq<u8>,
    first: int,
    count: int,
    src: Seq<u8>,
    at: int,
    tlut: Seq<u8>,
    format: PaletteFormat,
) -> bool {
    &&& after.len() == before.len()
    &&& forall|i: int|
        0 <= i < after.len() ==> #[trigger] after[i] == if 4 * first <= i < 4 * (first + count) {
            pixel_channel(
                spec_decodepixel_paletted(
                    palette_word(tlut, row_index(kind, src, at, (i - 4 * first) / 4)),
                    format,
                ),
                (i - 4 * first) % 4,
            )
        } else {
            before[i]
        }
}

/// Whether the first `count` pixels of the tile row at byte `at` name entries
/// that the palette has.
pub open spec fn row_in_palette(
    kind: IndexedFormat,
    count: int,
    src: Seq<u8>,
    at: int,
    tlut: Seq<u8>,
) -> bool {
    forall|j: int| 0 <= j < count ==> #[trigger] row_index(kind, src, at, j) < palette_len(tlut)
}

fn palette_entry(tlut: &[u8], k: usize) -> (w: u16)
    requires
        k < palette_len(tlut@),
    ensures
        w == palette_word(tlut@, k as int),
{
    let entries = tlut.len() / 2;
    assert(k < entries);
    (tlut[2 * k] as u16) + 256 * (tlut[2 * k + 1] as u16)
}

fn put_pixel(dst: &mut [u8], n: usize, p: u32)
    requires
        4 * n + 4 <= old(dst)@.len(),
    ensures
        final(dst)@.len() == old(dst)@.len(),
        forall|i: int|
            0 <= i < final(dst)@.len() ==> #[trigger] final(dst)@[i] == if 4 * n <= i < 4 * n + 4 {
                pixel_channel(p, i - 4 * n)
            } else {
                old(dst)@[i]
            },
{
    dst[4 * n] = (p & 0xFF) as u8;
    dst[4 * n + 1] = ((p >> 8) & 0xFF) as u8;
    dst[4 * n + 2] = ((p >> 16) & 0xFF) as u8;
    dst[4 * n + 3] = ((p >> 24) & 0xFF) as u8;
}

/// Decodes up to eight pixels of one tile row of a C4 texture: four source
/// bytes, two indices in each, the high nibble first.
fn decodebytesc4(
    dst: &mut [u8],
    first: usize,
    count: usize,
    src: &[u8],
    at: usize,
    tlut: &[u8],
    tlutformat: PaletteFormat,
) -> (r: Result<(), TplError>)
    requires
        count <= 8,
        4 * (first + count) <= old(dst)@.len(),
        at + 4 <= src@.len(),
    ensures
        final(dst)@.len() == old(dst)@.len(),
        r is Ok <==> row_in_palette(IndexedFormat::C4, count as int, src@, at as int, tlut@),
        r is Err ==> r == Err::<(), TplError>(TplError::BufferTooSmall),
        r is Ok ==> row_decoded(
            IndexedFormat::C4,
            old(dst)@,
            final(dst)@,
            first as int,
            count as int,
            src@,
            at as int,
            tlut@,
            tlutformat,
        ),
{
    let entries = tlut.len() / 2;
    let dst_len = dst.len();
    let src_len = src.len();
    let mut j: usize = 0;
    while j < count
        invariant
            dst@.len() == dst_len,
            src@.len() == src_len,
            j <= count <= 8,
            4 * (first + count) <= dst@.len(),
            at + 4 <= src@.len(),
            entries == palette_len(tlut@),
            row_in_palette(IndexedFormat::C4, j as int, src@, at as int, tlut@),
            row_decoded(
                IndexedFormat::C4,
                old(dst)@,
                dst@,
                first as int,
                j as int,
                src@,
                at as int,
                tlut@,
                tlutformat,
            ),
        decreases count - j,
    {
        let val = src[at + j / 2];
        let index = if j % 2 == 0 {
            (val >> 4) as usize
        } else {
            (val & 0xF) as usize
        };
        assert(val >> 4 == val / 16 && val & 0xF == val % 16) by (bit_vector);
        assert(index == row_index(IndexedFormat::C4, src@, at as int, j as int));
        if index >= entries {
            return Err(TplError::BufferTooSmall);
        }
        put_pixel(dst, first + j, decodepixel_paletted(palette_entry(tlut, index), tlutformat));
        j += 1;
    }
    Ok(())
}

/// Decodes up to eight pixels of one tile row of a C8 texture: eight source
/// bytes, each one index.
fn decodebytesc8(
    dst: &mut [u8],
    first: usize,
    count: usize,
    src: &[u8],
    at: usize,
    tlut: &[u8],
    tlutformat: PaletteFormat,
) -> (r: Result<(), TplError>)
    requires
        count <= 8,
        4 * (first + count) <= old(dst)@.len(),
        at + 8 <= src@.len(),
    ensures
        final(dst)@.len() == old(dst)@.len(),
        r is Ok <==> row_in_palette(IndexedFormat::C8, count as int, src@, at as int, tlut@),
        r is Err ==> r == Err::<(), TplError>(TplError::BufferTooSmall),
        r is Ok ==> row_decoded(
            IndexedFormat::C8,
            old(dst)@,
            final(dst)@,
            first as int,
            count as int,
            src@,
            at as int,
            tlut@,
            tlutformat,
        ),
{
    let entries = tlut.len() / 2;
    let dst_len = dst.len();
    let src_len = src.len();
    let mut j: usize = 0;
    while j < count
        invariant
            dst@.len() == dst_len,
            src@.len() == src_len,
            j <= count <= 8,
            4 * (first + count) <= dst@.len(),
            at + 8 <= src@.len(),
            entries == palette_len(tlut@),
            row_in_palette(IndexedFormat::C8, j as int, src@, at as int, tlut@),
            row_decoded(
                IndexedFormat::C8,
                old(dst)@,
                dst@,
                first as int,
                j as int,
                src@,
                at as int,
                tlut@,
                tlutformat,
            ),
        decreases count - j,
    {
        let index = src[at + j] as usize;
        assert(index == row_index(IndexedFormat::C8, src@, at as int, j as int));
        if index >= entries {
            return Err(TplError::BufferTooSmall);
        }
        put_pixel(dst, first + j, decodepixel_paletted(palette_entry(tlut, index), tlutformat));
        j += 1;
    }
    Ok(())
}

/// Decodes up to four pixels of one tile row of a C14X2 texture: four
/// big-endian 16-bit words, of which the low 14 bits are the index.
fn decodebytesc14x2(
    dst: &mut [u8],
    first: usize,
    count: usize,
    src: &[u8],
    at: usize,
    tlut: &[u8],
    tlutformat: PaletteFormat,
) -> (r: Result<(), TplError>)
    requires
        count <= 4,
        4 * (first + count) <= old(dst)@.len(),
        at + 8 <= src@.len(),
    ensures
        final(dst)@.len() == old(dst)@.len(),
        r is Ok <==> row_in_palette(IndexedFormat::C14X2, count as int, src@, at as int, tlut@),
        r is Err ==> r == Err::<(), TplError>(TplError::BufferTooSmall),
        r is Ok ==> row_decoded(
            IndexedFormat::C14X2,
            old(dst)@,
            final(dst)@,
            first as int,
            count as int,
            src@,
            at as int,
            tlut@,
            tlutformat,
        ),
{
    let entries = tlut.len() / 2;
    let dst_len = dst.len();
    let src_len = src.len();
    let mut j: usize = 0;
    while j < count
        invariant
            dst@.len() == dst_len,
            src@.len() == src_len,
            j <= count <= 4,
            4 * (first + count) <= dst@.len(),
            at + 8 <= src@.len(),
            entries == palette_len(tlut@),
            row_in_palette(IndexedFormat::C14X2, j as int, src@, at as int, tlut@),
            row_decoded(
                IndexedFormat::C14X2,
                old(dst)@,
                dst@,
                first as int,
                j as int,
                src@,
                at as int,
                tlut@,
                tlutformat,
            ),
        decreases count - j,
    {
        let hi = src[at + 2 * j];
        let lo = src[at + 2 * j + 1];
        let word = ((hi as u16) << 8) | (lo as u16);
        let index = (word & 0x3FFF) as usize;
        assert((((hi as u16) << 8) | (lo as u16)) & 0x3FFF == (hi as u16 % 64) * 256 + (lo as u16))
            by (bit_vector);
        assert(index == row_index(IndexedFormat::C14X2, src@, at as int, j as int));
        if index >= entries {
            return Err(TplError::BufferTooSmall);
        }
        put_pixel(dst, first + j, decodepixel_paletted(palette_entry(tlut, index), tlutformat));
        j += 1;
    }
    Ok(())
}

/// Number, in the stream of tile rows, of row `iy` of the tile in column `tx`
/// of tile line `ty`.
pub open spec fn tile_row_number(kind: IndexedFormat, width: int, ty: int, tx: int, iy: int) -> int {
    kind.tile_height() * (ty * tiles_across(kind, width) + tx) + iy
}

/// How many pixels of a row of the tile in column `tx` lie inside an image
/// `width` pixels wide.
pub open spec fn tile_row_count(kind: IndexedFormat, width: int, tx: int) -> int {
    if width - kind.tile_width() * tx < kind.tile_width() {
        width - kind.tile_width() * tx
    } else {
        kind.tile_width()
    }
}

/// The destination after the first `rows` tile rows of the source were
/// decoded: the pixels of those rows are in place and name entries of the
/// palette, every other byte is as it was.
spec fn decoded_rows(
    kind: IndexedFormat,
    before: Seq<u8>,
    after: Seq<u8>,
    src: Seq<u8>,
    width: int,
    height: int,
    tlut: Seq<u8>,
    format: PaletteFormat,
    rows: int,
) -> bool {
    &&& after.len() == before.len()
    &&& forall|i: int|
        0 <= i < after.len() ==> #[trigger] after[i] == if i < 4 * (width * height) && source_row(
            kind,
            width,
            (i / 4) % width,
            (i / 4) / width,
        ) < rows {
            indexed_decoded_byte(kind, src, width, tlut, format, i)
        } else {
            before[i]
        }
    &&& forall|px: int, py: int|
        0 <= px < width && 0 <= py < height && source_row(kind, width, px, py) < rows
            ==> #[trigger] palette_index(kind, src, width, px, py) < palette_len(tlut)
}

/// The pixels of one tile row that lie inside the image are the pixels whose
/// source row has that row's number; they stand side by side in the image.
proof fn lemma_tile_row_pixels(
    kind: IndexedFormat,
    width: int,
    height: int,
    ty: int,
    tx: int,
    iy: int,
    px: int,
    py: int,
)
    requires
        0 <= px < width,
        0 <= py < height,
        0 <= ty,
        0 <= tx < tiles_across(kind, width),
        0 <= iy < kind.tile_height(),
    ensures
        source_row(kind, width, px, py) == tile_row_number(kind, width, ty, tx, iy) <==> (py
            == kind.tile_height() * ty + iy && kind.tile_width() * tx <= px < kind.tile_width() * tx
            + tile_row_count(kind, width, tx)),
        source_row(kind, width, px, py) == tile_row_number(kind, width, ty, tx, iy) ==> px
            % kind.tile_width() == px - kind.tile_width() * tx,
{
    lemma_source_row_names_tile_row(kind, width, px, py, ty, tx, iy);
    match kind {
        IndexedFormat::C4 => {},
        IndexedFormat::C8 => {},
        IndexedFormat::C14X2 => {},
    }
}

/// The first pixel of a tile row lies inside the image, and so do the
/// `tile_row_count` pixels from it on.
proof fn lemma_tile_row_fits(kind: IndexedFormat, width: int, height: int, ty: int, tx: int, iy: int)
    requires
        0 < width,
        0 <= ty,
        0 <= tx < tiles_across(kind, width),
        0 <= iy < kind.tile_height(),
        kind.tile_height() * ty + iy < height,
    ensures
        0 <= kind.tile_width() * tx < width,
        0 < tile_row_count(kind, width, tx) <= kind.tile_width(),
        0 <= (kind.tile_height() * ty + iy) * width + kind.tile_width() * tx,
        (kind.tile_height() * ty + iy) * width + kind.tile_width() * tx + tile_row_count(
            kind,
            width,
            tx,
        ) <= width * height,
        0 <= tile_row_number(kind, width, ty, tx, iy),
        kind.row_bytes() * tile_row_number(kind, width, ty, tx, iy) + kind.row_bytes()
            <= indexed_source_len(kind, width, height),
{
    let y = kind.tile_height() * ty + iy;
    let x = kind.tile_width() * tx;
    match kind {
        IndexedFormat::C4 => {
            assert(tx < (width + 7) / 8 ==> 8 * tx < width);
        },
        IndexedFormat::C8 => {
            assert(tx < (width + 7) / 8 ==> 8 * tx < width);
        },
        IndexedFormat::C14X2 => {
            assert(tx < (width + 3) / 4 ==> 4 * tx < width);
        },
    }
    assert(0 <= x < width);
    assert(0 <= y * width && (y + 1) * width <= width * height && (y + 1) * width == y * width
        + width) by (nonlinear_arith)
        requires
            0 <= y < height,
            0 < width,
    ;
    lemma_tile_row_pixels(kind, width, height, ty, tx, iy, x, y);
    lemma_source_row_in_source(kind, width, height, x, y);
}

/// Decoding one more tile row moves the destination one row on.
proof fn lemma_row_step(
    kind: IndexedFormat,
    before: Seq<u8>,
    mid: Seq<u8>,
    after: Seq<u8>,
    src: Seq<u8>,
    width: int,
    height: int,
    tlut: Seq<u8>,
    format: PaletteFormat,
    ty: int,
    tx: int,
    iy: int,
)
    requires
        0 < width,
        0 < height,
        0 <= ty,
        0 <= tx < tiles_across(kind, width),
        0 <= iy < kind.tile_height(),
        kind.tile_height() * ty + iy < height,
        before.len() == 4 * (width * height),
        decoded_rows(
            kind,
            before,
            mid,
            src,
            width,
            height,
            tlut,
            format,
            tile_row_number(kind, width, ty, tx, iy),
        ),
        row_in_palette(
            kind,
            tile_row_count(kind, width, tx),
            src,
            kind.row_bytes() * tile_row_number(kind, width, ty, tx, iy),
            tlut,
        ),
        row_decoded(
            kind,
            mid,
            after,
            (kind.tile_height() * ty + iy) * width + kind.tile_width() * tx,
            tile_row_count(kind, width, tx),
            src,
            kind.row_bytes() * tile_row_number(kind, width, ty, tx, iy),
            tlut,
            format,
        ),
    ensures
        decoded_rows(
            kind,
            before,
            after,
            src,
            width,
            height,
            tlut,
            format,
            tile_row_number(kind, width, ty, tx, iy) + 1,
        ),
{
    let row = tile_row_number(kind, width, ty, tx, iy);
    let y = kind.tile_height() * ty + iy;
    let x = kind.tile_width() * tx;
    let count = tile_row_count(kind, width, tx);
    let first = y * width + x;
    let at = kind.row_bytes() * row;
    lemma_tile_row_fits(kind, width, height, ty, tx, iy);
    assert forall|i: int| 0 <= i < after.len() implies #[trigger] after[i] == if i < 4 * (width
        * height) && source_row(kind, width, (i / 4) % width, (i / 4) / width) < row + 1 {
        indexed_decoded_byte(kind, src, width, tlut, format, i)
    } else {
        before[i]
    } by {
        let p = i / 4;
        let px = p % width;
        let py = p / width;
        lemma_pixel_coords(width, height, p);
        lemma_tile_row_pixels(kind, width, height, ty, tx, iy, px, py);
        assert(mid[i] == if source_row(kind, width, px, py) < row {
            indexed_decoded_byte(kind, src, width, tlut, format, i)
        } else {
            before[i]
        });
        if 4 * first <= i < 4 * (first + count) {
            let j = p - first;
            assert(0 <= j < count);
            lemma_raster_number(width, x + j, y);
            assert(px == x + j && py == y);
            assert((i - 4 * first) / 4 == j && (i - 4 * first) % 4 == i % 4);
            assert(source_row(kind, width, px, py) == row);
            assert(palette_index(kind, src, width, px, py) == row_index(kind, src, at, j));
        } else {
            if source_row(kind, width, px, py) == row {
                assert(p == y * width + px);
                assert(false);
            }
        }
    }
    assert forall|px: int, py: int|
        0 <= px < width && 0 <= py < height && source_row(kind, width, px, py) < row
            + 1 implies #[trigger] palette_index(kind, src, width, px, py) < palette_len(tlut) by {
        lemma_tile_row_pixels(kind, width, height, ty, tx, iy, px, py);
        if source_row(kind, width, px, py) == row {
            assert(row_index(kind, src, at, px - x) < palette_len(tlut));
        }
    }
}

/// A tile row below the image's last line holds no pixel of the image.
proof fn lemma_row_skip(
    kind: IndexedFormat,
    before: Seq<u8>,
    after: Seq<u8>,
    src: Seq<u8>,
    width: int,
    height: int,
    tlut: Seq<u8>,
    format: PaletteFormat,
    ty: int,
    tx: int,
    iy: int,
)
    requires
        0 < width,
        0 < height,
        0 <= ty,
        0 <= tx < tiles_across(kind, width),
        0 <= iy < kind.tile_height(),
        kind.tile_height() * ty + iy >= height,
        before.len() == 4 * (width * height),
        decoded_rows(
            kind,
            before,
            after,
            src,
            width,
            height,
            tlut,
            format,
            tile_row_number(kind, width, ty, tx, iy),
        ),
    ensures
        decoded_rows(
            kind,
            before,
            after,
            src,
            width,
            height,
            tlut,
            format,
            tile_row_number(kind, width, ty, tx, iy) + 1,
        ),
{
    let row = tile_row_number(kind, width, ty, tx, iy);
    assert forall|i: int| 0 <= i < after.len() implies #[trigger] after[i] == if i < 4 * (width
        * height) && source_row(kind, width, (i / 4) % width, (i / 4) / width) < row + 1 {
        indexed_decoded_byte(kind, src, width, tlut, format, i)
    } else {
        before[i]
    } by {
        let p = i / 4;
        lemma_pixel_coords(width, height, p);
        lemma_tile_row_pixels(kind, width, height, ty, tx, iy, p % width, p / width);
    }
    assert forall|px: int, py: int|
        0 <= px < width && 0 <= py < height && source_row(kind, width, px, py) < row
            + 1 implies #[trigger] palette_index(kind, src, width, px, py) < palette_len(tlut) by {
        lemma_tile_row_pixels(kind, width, height, ty, tx, iy, px, py);
    }
}

/// A tile row with an index that the palette lacks makes the whole image
/// undecodable.
proof fn lemma_row_fails(
    kind: IndexedFormat,
    dst_len: int,
    src: Seq<u8>,
    width: int,
    height: int,
    tlut: Seq<u8>,
    ty: int,
    tx: int,
    iy: int,
)
    requires
        0 < width,
        0 < height,
        0 <= ty,
        0 <= tx < tiles_across(kind, width),
        0 <= iy < kind.tile_height(),
        kind.tile_height() * ty + iy < height,
        !row_in_palette(
            kind,
            tile_row_count(kind, width, tx),
            src,
            kind.row_bytes() * tile_row_number(kind, width, ty, tx, iy),
            tlut,
        ),
    ensures
        !indexed_decodable(kind, dst_len, src, width, height, tlut),
{
    let at = kind.row_bytes() * tile_row_number(kind, width, ty, tx, iy);
    let x = kind.tile_width() * tx;
    let y = kind.tile_height() * ty + iy;
    let j = choose|j: int|
        0 <= j < tile_row_count(kind, width, tx) && !(#[trigger] row_index(kind, src, at, j)
            < palette_len(tlut));
    lemma_tile_row_fits(kind, width, height, ty, tx, iy);
    lemma_tile_row_pixels(kind, width, height, ty, tx, iy, x + j, y);
    assert(palette_index(kind, src, width, x + j, y) == row_index(kind, src, at, j));
}

/// Every pixel of the image lies in one of the tile rows of the source.
proof fn lemma_all_rows(
    kind: IndexedFormat,
    before: Seq<u8>,
    after: Seq<u8>,
    src: Seq<u8>,
    width: int,
    height: int,
    tlut: Seq<u8>,
    format: PaletteFormat,
)
    requires
        0 < width,
        0 < height,
        before.len() == 4 * (width * height),
        indexed_source_len(kind, width, height) <= src.len(),
        decoded_rows(
            kind,
            before,
            after,
            src,
            width,
            height,
            tlut,
            format,
            tile_row_number(kind, width, tiles_down(kind, height), 0, 0),
        ),
    ensures
        indexed_decodable(kind, before.len() as int, src, width, height, tlut),
        forall|i: int|
            0 <= i < after.len() ==> #[trigger] after[i] == indexed_decoded_byte(
                kind,
                src,
                width,
                tlut,
                format,
                i,
            ),
{
    let rows = tile_row_number(kind, width, tiles_down(kind, height), 0, 0);
    assert forall|px: int, py: int| 0 <= px < width && 0 <= py < height implies source_row(
        kind,
        width,
        px,
        py,
    ) < rows by {
        lemma_source_row_in_source(kind, width, height, px, py);
        let across = tiles_across(kind, width);
        let down = tiles_down(kind, height);
        let row = source_row(kind, width, px, py);
        assert(kind.row_bytes() * kind.tile_height() == 32);
        assert(rows == kind.tile_height() * (down * across + 0) + 0);
        assert(row < kind.tile_height() * (down * across)) by (nonlinear_arith)
            requires
                kind.row_bytes() * row + kind.row_bytes() <= across * down * 32,
                kind.row_bytes() * kind.tile_height() == 32,
                kind.row_bytes() > 0,
                kind.tile_height() > 0,
        ;
    }
    assert forall|px: int, py: int| 0 <= px < width && 0 <= py < height implies #[trigger] palette_index(
        kind,
        src,
        width,
        px,
        py,
    ) < palette_len(tlut) by {
        assert(source_row(kind, width, px, py) < rows);
    }
    assert forall|i: int| 0 <= i < after.len() implies #[trigger] after[i] == indexed_decoded_byte(
        kind,
        src,
        width,
        tlut,
        format,
        i,
    ) by {
        lemma_pixel_coords(width, height, i / 4);
        assert(source_row(kind, width, (i / 4) % width, (i / 4) / width) < rows);
    }
}

/// An image without pixels takes no tile.
proof fn lemma_empty_image_takes_nothing(kind: IndexedFormat, width: int, height: int)
    requires
        width == 0 || height == 0,
        0 <= width,
        0 <= height,
    ensures
        indexed_source_len(kind, width, height) == 0,
{
    let a = tiles_across(kind, width);
    let d = tiles_down(kind, height);
    match kind {
        IndexedFormat::C4 => {
            assert((0 + 8 - 1) / 8 == 0int);
        },
        IndexedFormat::C8 => {
            assert((0 + 8 - 1) / 8 == 0int && (0 + 4 - 1) / 4 == 0int);
        },
        IndexedFormat::C14X2 => {
            assert((0 + 4 - 1) / 4 == 0int);
        },
    }
    assert(a == 0 || d == 0);
    assert(a * d * 32 == 0) by (nonlinear_arith)
        requires
            a == 0 || d == 0,
    ;
}

/// An image with pixels takes at least one tile each way, and never more
/// tiles than pixels.
proof fn lemma_tiles_bounded(kind: IndexedFormat, width: int, height: int)
    requires
        0 < width,
        0 < height,
    ensures
        0 < tiles_across(kind, width) <= width,
        0 < tiles_down(kind, height) <= height,
{
    match kind {
        IndexedFormat::C4 => {
            assert(0 < (width + 7) / 8 <= width && 0 < (height + 7) / 8 <= height);
        },
        IndexedFormat::C8 => {
            assert(0 < (width + 7) / 8 <= width && 0 < (height + 3) / 4 <= height);
        },
        IndexedFormat::C14X2 => {
            assert(0 < (width + 3) / 4 <= width && 0 < (height + 3) / 4 <= height);
        },
    }
}

/// The lines of a tile that covers the image start within one tile height of
/// the image's last line.
proof fn lemma_tile_line_in_image(kind: IndexedFormat, height: int, ty: int, iy: int)
    requires
        0 <= ty < tiles_down(kind, height),
        0 <= iy < kind.tile_height(),
        0 < height,
    ensures
        0 <= kind.tile_height() * ty + iy < height + kind.tile_height(),
{
    match kind {
        IndexedFormat::C4 => {
            assert(ty < (height + 7) / 8 ==> 8 * ty < height);
        },
        IndexedFormat::C8 => {
            assert(ty < (height + 3) / 4 ==> 4 * ty < height);
        },
        IndexedFormat::C14X2 => {
            assert(ty < (height + 3) / 4 ==> 4 * ty < height);
        },
    }
}

/// Decodes one tile row with the row decoder of the format.
fn decode_row(
    kind: IndexedFormat,
    dst: &mut [u8],
    first: usize,
    count: usize,
    src: &[u8],
    at: usize,
    tlut: &[u8],
    tlutformat: PaletteFormat,
) -> (r: Result<(), TplError>)
    requires
        count <= kind.tile_width(),
        4 * (first + count) <= old(dst)@.len(),
        at + kind.row_bytes() <= src@.len(),
    ensures
        final(dst)@.len() == old(dst)@.len(),
        r is Ok <==> row_in_palette(kind, count as int, src@, at as int, tlut@),
        r is Err ==> r == Err::<(), TplError>(TplError::BufferTooSmall),
        r is Ok ==> row_decoded(
            kind,
            old(dst)@,
            final(dst)@,
            first as int,
            count as int,
            src@,
            at as int,
            tlut@,
            tlutformat,
        ),
{
    match kind {
        IndexedFormat::C4 => decodebytesc4(dst, first, count, src, at, tlut, tlutformat),
        IndexedFormat::C8 => decodebytesc8(dst, first, count, src, at, tlut, tlutformat),
        IndexedFormat::C14X2 => decodebytesc14x2(dst, first, count, src, at, tlut, tlutformat),
    }
}

/// Decodes row `iy` of the tile in column `tx` of tile line `ty`, if the row
/// lies inside the image, and so moves the destination one row on.
fn decode_tile_row(
    kind: IndexedFormat,
    out: &mut Vec<u8>,
    src: &[u8],
    width: usize,
    height: usize,
    across: usize,
    ty: usize,
    tx: usize,
    iy: usize,
    tlut: &[u8],
    tlutformat: PaletteFormat,
    Ghost(blank): Ghost<Seq<u8>>,
    Ghost(dst_len): Ghost<int>,
) -> (r: Result<(), TplError>)
    requires
        0 < width,
        0 < height,
        across == tiles_across(kind, width as int),
        ty < tiles_down(kind, height as int),
        tx < across,
        iy < kind.tile_height(),
        blank.len() == 4 * (width * height),
        4 * (width * height) <= usize::MAX,
        indexed_source_len(kind, width as int, height as int) <= src@.len(),
        decoded_rows(
            kind,
            blank,
            old(out)@,
            src@,
            width as int,
            height as int,
            tlut@,
            tlutformat,
            tile_row_number(kind, width as int, ty as int, tx as int, iy as int),
        ),
    ensures
        r is Err ==> r == Err::<(), TplError>(TplError::BufferTooSmall) && !indexed_decodable(
            kind,
            dst_len,
            src@,
            width as int,
            height as int,
            tlut@,
        ),
        r is Ok ==> decoded_rows(
            kind,
            blank,
            final(out)@,
            src@,
            width as int,
            height as int,
            tlut@,
            tlutformat,
            tile_row_number(kind, width as int, ty as int, tx as int, iy as int) + 1,
        ),
{
    let tw = kind.tile_w();
    let th = kind.tile_h();
    let rb = kind.row_len();
    let src_len = src.len();
    proof {
        lemma_tile_line_in_image(kind, height as int, ty as int, iy as int);
        assert(width * height >= height) by (nonlinear_arith)
            requires
                width >= 1,
                height >= 1,
        ;
    }
    let y = th * ty + iy;
    if y >= height {
        proof {
            lemma_row_skip(
                kind,
                blank,
                out@,
                src@,
                width as int,
                height as int,
                tlut@,
                tlutformat,
                ty as int,
                tx as int,
                iy as int,
            );
        }
        return Ok(());
    }
    let ghost row_number = tile_row_number(kind, width as int, ty as int, tx as int, iy as int);
    proof {
        lemma_tile_row_fits(kind, width as int, height as int, ty as int, tx as int, iy as int);
        let tile = ty * across + tx;
        assert(row_number == th * tile + iy);
        assert(0 <= ty * across <= tile && tile <= th * tile && th * tile <= row_number
            && row_number <= rb * row_number) by (nonlinear_arith)
            requires
                tile == ty * across + tx,
                row_number == th * tile + iy,
                th >= 1,
                rb >= 1,
                0 <= row_number,
        ;
        assert(0 <= y * width <= y * width + tw * tx) by (nonlinear_arith)
            requires
                0 < width,
        ;
    }
    let x = tw * tx;
    let count = if width - x < tw {
        width - x
    } else {
        tw
    };
    let row = th * (ty * across + tx) + iy;
    let first = y * width + x;
    let at = rb * row;
    let ghost mid = out@;
    let res = decode_row(kind, out.as_mut_slice(), first, count, src, at, tlut, tlutformat);
    if res.is_err() {
        proof {
            lemma_row_fails(
                kind,
                dst_len,
                src@,
                width as int,
                height as int,
                tlut@,
                ty as int,
                tx as int,
                iy as int,
            );
        }
        return Err(TplError::BufferTooSmall);
    }
    proof {
        lemma_row_step(
            kind,
            blank,
            mid,
            out@,
            src@,
            width as int,
            height as int,
            tlut@,
            tlutformat,
            ty as int,
            tx as int,
            iy as int,
        );
    }
    Ok(())
}

/// Walks the tiles of an indexed texture in the order of the source and
/// decodes them into the first `4 * width * height` bytes of `dst`.
fn decode_indexed(
    kind: IndexedFormat,
    dst: &mut [u8],
    src: &[u8],
    width: usize,
    height: usize,
    tlut: &[u8],
    tlutformat: PaletteFormat,
) -> (r: Result<(), TplError>)
    ensures
        r is Ok <==> indexed_decodable(
            kind,
            old(dst)@.len() as int,
            src@,
            width as int,
            height as int,
            tlut@,
        ),
        r is Err ==> r == Err::<(), TplError>(TplError::BufferTooSmall) && final(dst)@ == old(dst)@,
        r is Ok ==> indexed_decoded(
            kind,
            old(dst)@,
            final(dst)@,
            src@,
            width as int,
            height as int,
            tlut@,
            tlutformat,
        ),
{
    let dst_len = dst.len();
    let src_len = src.len();
    if width == 0 || height == 0 {
        assert(width * height == 0) by (nonlinear_arith)
            requires
                width == 0 || height == 0,
        ;
        assert(indexed_source_len(kind, width as int, height as int) == 0) by {
            lemma_empty_image_takes_nothing(kind, width as int, height as int);
        }
        return Ok(());
    }
    assert(width * height >= width && width * height >= height) by (nonlinear_arith)
        requires
            width >= 1,
            height >= 1,
    ;
    let pixels = match width.checked_mul(height) {
        Some(n) => n,
        None => {
            return Err(TplError::BufferTooSmall);
        },
    };
    let bytes = match pixels.checked_mul(4) {
        Some(n) => n,
        None => {
            return Err(TplError::BufferTooSmall);
        },
    };
    if bytes > dst_len {
        return Err(TplError::BufferTooSmall);
    }
    let tw = kind.tile_w();
    let th = kind.tile_h();
    let rb = kind.row_len();
    let across = (width + tw - 1) / tw;
    let down = (height + th - 1) / th;
    proof {
        lemma_tiles_bounded(kind, width as int, height as int);
    }
    assert(across <= width && down <= height && across * down <= width * height && 0 < across
        && 0 < down) by (nonlinear_arith)
        requires
            across <= width,
            down <= height,
            0 < across,
            0 < down,
    ;
    let needed = match (across * down).checked_mul(32) {
        Some(n) => n,
        None => {
            return Err(TplError::BufferTooSmall);
        },
    };
    if needed > src_len {
        return Err(TplError::BufferTooSmall);
    }
    let mut out: Vec<u8> = vec![0u8; bytes];
    let ghost blank = out@;
    let mut ty: usize = 0;
    proof {
        assert(tile_row_number(kind, width as int, 0, 0, 0) == 0) by (nonlinear_arith)
            requires
                tile_row_number(kind, width as int, 0, 0, 0) == kind.tile_height() * (0
                    * tiles_across(kind, width as int) + 0) + 0,
        ;
    }
    while ty < down
        invariant
            0 < width,
            0 < height,
            ty <= down,
            tw == kind.tile_width(),
            th == kind.tile_height(),
            rb == kind.row_bytes(),
            across == tiles_across(kind, width as int),
            down == tiles_down(kind, height as int),
            pixels == width * height,
            bytes == 4 * (width * height),
            blank.len() == bytes,
            needed == indexed_source_len(kind, width as int, height as int),
            needed <= src_len,
            src@.len() == src_len,
            dst@ == old(dst)@,
            dst@.len() == dst_len,
            decoded_rows(
                kind,
                blank,
                out@,
                src@,
                width as int,
                height as int,
                tlut@,
                tlutformat,
                tile_row_number(kind, width as int, ty as int, 0, 0),
            ),
        decreases down - ty,
    {
        let mut tx: usize = 0;
        while tx < across
            invariant
                0 < width,
                0 < height,
                ty < down,
                tx <= across,
                tw == kind.tile_width(),
                th == kind.tile_height(),
                rb == kind.row_bytes(),
                across == tiles_across(kind, width as int),
                down == tiles_down(kind, height as int),
                pixels == width * height,
                bytes == 4 * (width * height),
                blank.len() == bytes,
                needed == indexed_source_len(kind, width as int, height as int),
                needed <= src_len,
                src@.len() == src_len,
                dst@ == old(dst)@,
                dst@.len() == dst_len,
                decoded_rows(
                    kind,
                    blank,
                    out@,
                    src@,
                    width as int,
                    height as int,
                    tlut@,
                    tlutformat,
                    tile_row_number(kind, width as int, ty as int, tx as int, 0),
                ),
            decreases across - tx,
        {
            let mut iy: usize = 0;
            while iy < th
                invariant
                    0 < width,
                    0 < height,
                    ty < down,
                    tx < across,
                    iy <= th,
                    tw == kind.tile_width(),
                    th == kind.tile_height(),
                    rb == kind.row_bytes(),
                    across == tiles_across(kind, width as int),
                    down == tiles_down(kind, height as int),
                    pixels == width * height,
                    bytes == 4 * (width * height),
                    blank.len() == bytes,
                    needed == indexed_source_len(kind, width as int, height as int),
                    needed <= src_len,
                    src@.len() == src_len,
                    dst@ == old(dst)@,
                    dst@.len() == dst_len,
                    decoded_rows(
                        kind,
                        blank,
                        out@,
                        src@,
                        width as int,
                        height as int,
                        tlut@,
                        tlutformat,
                        tile_row_number(kind, width as int, ty as int, tx as int, iy as int),
                    ),
                decreases th - iy,
            {
                decode_tile_row(
                    kind,
                    &mut out,
                    src,
                    width,
                    height,
                    across,
                    ty,
                    tx,
                    iy,
                    tlut,
                    tlutformat,
                    Ghost(blank),
                    Ghost(dst_len as int),
                )?;
                iy += 1;
            }
            tx += 1;
            assert(tile_row_number(kind, width as int, ty as int, tx as int - 1, th as int)
                == tile_row_number(kind, width as int, ty as int, tx as int, 0)) by (nonlinear_arith)
                requires
                    th == kind.tile_height(),
                    tile_row_number(kind, width as int, ty as int, tx as int - 1, th as int)
                        == kind.tile_height() * (ty * tiles_across(kind, width as int) + (tx - 1))
                        + th,
                    tile_row_number(kind, width as int, ty as int, tx as int, 0)
                        == kind.tile_height() * (ty * tiles_across(kind, width as int) + tx) + 0,
            ;
        }
        proof {
            lemma_next_tile_line(ty as int, across as int);
        }
        ty += 1;
    }
    proof {
        lemma_all_rows(
            kind,
            blank,
            out@,
            src@,
            width as int,
            height as int,
            tlut@,
            tlutformat,
        );
    }
    let mut i: usize = 0;
    while i < bytes
        invariant
            i <= bytes <= dst_len,
            out@.len() == bytes,
            dst@.len() == dst_len,
            dst@.len() == old(dst)@.len(),
            forall|k: int|
                0 <= k < dst@.len() ==> #[trigger] dst@[k] == if k < i {
                    out@[k]
                } else {
                    old(dst)@[k]
                },
        decreases bytes - i,
    {
        dst[i] = out[i];
        i += 1;
    }
    Ok(())
}

/// Decodes a C4 texture: 4-bit palette indices in tiles of 8 by 8 pixels.
///
/// On success the first `4 * width * height` bytes of `dst` hold the image as
/// RGBA8888 pixels in raster order and the rest of `dst` is untouched. It
/// fails with `BufferTooSmall`, leaving `dst` as it was, when `dst` cannot
/// hold the image, when `src` is shorter than the tiles that cover the
/// image, or when a pixel of the image names an entry that `tlut` lacks.
pub fn decode_texture_c4(
    dst: &mut [u8],
    src: &[u8],
    width: usize,
    height: usize,
    tlut: &[u8],
    tlutformat: PaletteFormat,
) -> (r: Result<(), TplError>)
    ensures
        r is Ok <==> indexed_decodable(
            IndexedFormat::C4,
            old(dst)@.len() as int,
            src@,
            width as int,
            height as int,
            tlut@,
        ),
        r is Err ==> r == Err::<(), TplError>(TplError::BufferTooSmall) && final(dst)@ == old(dst)@,
        r is Ok ==> indexed_decoded(
            IndexedFormat::C4,
            old(dst)@,
            final(dst)@,
            src@,
            width as int,
            height as int,
            tlut@,
            tlutformat,
        ),
{
    decode_indexed(IndexedFormat::C4, dst, src, width, height, tlut, tlutformat)
}

/// Decodes a C8 texture: 8-bit palette indices in tiles of 8 by 4 pixels.
///
/// Succeeds and fails as [`decode_texture_c4`] does.
pub fn decode_texture_c8(
    dst: &mut [u8],
    src: &[u8],
    width: usize,
    height: usize,
    tlut: &[u8],
    tlutformat: PaletteFormat,
) -> (r: Result<(), TplError>)
    ensures
        r is Ok <==> indexed_decodable(
            IndexedFormat::C8,
            old(dst)@.len() as int,
            src@,
            width as int,
            height as int,
            tlut@,
        ),
        r is Err ==> r == Err::<(), TplError>(TplError::BufferTooSmall) && final(dst)@ == old(dst)@,
        r is Ok ==> indexed_decoded(
            IndexedFormat::C8,
            old(dst)@,
            final(dst)@,
            src@,
            width as int,
            height as int,
            tlut@,
            tlutformat,
        ),
{
    decode_indexed(IndexedFormat::C8, dst, src, width, height, tlut, tlutformat)
}

/// Decodes a C14X2 texture: 14-bit palette indices, each in a big-endian
/// 16-bit word whose top two bits are ignored, in tiles of 4 by 4 pixels.
///
/// Succeeds and fails as [`decode_texture_c4`] does.
pub fn decode_texture_c14x2(
    dst: &mut [u8],
    src: &[u8],
    width: usize,
    height: usize,
    tlut: &[u8],
    tlutformat: PaletteFormat,
) -> (r: Result<(), TplError>)
    ensures
        r is Ok <==> indexed_decodable(
            IndexedFormat::C14X2,
            old(dst)@.len() as int,
            src@,
            width as int,
            height as int,
            tlut@,
        ),
        r is Err ==> r == Err::<(), TplError>(TplError::BufferTooSmall) && final(dst)@ == old(dst)@,
        r is Ok ==> indexed_decoded(
            IndexedFormat::C14X2,
            old(dst)@,
            final(dst)@,
            src@,
            width as int,
            height as int,
            tlut@,
            tlutformat,
        ),
{
    decode_indexed(IndexedFormat::C14X2, dst, src, width, height, tlut, tlutformat)
}

} // verus!
