//! The byte layout of the records of a container. All integers are
//! big-endian, and the fields of a record follow each other without gaps.
//!
//! A record is read field by field. The first field that cannot be read
//! decides the error: `IOError` where the bytes end inside it, `FormatError`
//! where it holds a number that names no variant of its enumeration.

use crate::stream::{
    be_u16, be_u32, lemma_appended, lemma_be_u16_of_bytes, lemma_be_u32_of_bytes, put_u16, put_u32,
    put_u8, u16_bytes, u32_bytes, ByteCursor,
};
use crate::types::{
    lemma_codes_name_variants, FileHeader, FilterMode, ImageHeader, ImageOffset, PaletteFormat,
    PaletteHeader, TextureFormat, TplError, WrapMode,
};
use vstd::prelude::*;

verus! {

/// The file header stored at `at`.
pub open spec fn spec_file_header(s: Seq<u8>, at: int) -> Result<FileHeader, TplError> {
    if at + 12 > s.len() {
        Err(TplError::IOError)
    } else {
        Ok(
            FileHeader {
                identifier: be_u32(s, at),
                image_count: be_u32(s, at + 4),
                image_offset: be_u32(s, at + 8),
            },
        )
    }
}

/// The entry of the table of image offsets stored at `at`.
pub open spec fn spec_image_offset(s: Seq<u8>, at: int) -> Result<ImageOffset, TplError> {
    if at + 8 > s.len() {
        Err(TplError::IOError)
    } else {
        Ok(
            ImageOffset {
                image_header_offset: be_u32(s, at),
                palette_header_offset: be_u32(s, at + 4),
            },
        )
    }
}

/// The palette header stored at `at`.
pub open spec fn spec_palette_header(s: Seq<u8>, at: int) -> Result<PaletteHeader, TplError> {
    if at + 8 > s.len() {
        Err(TplError::IOError)
    } else if PaletteFormat::spec_from_u32(be_u32(s, at + 4)) is None {
        Err(TplError::FormatError)
    } else if at + 12 > s.len() {
        Err(TplError::IOError)
    } else {
        Ok(
            PaletteHeader {
                entry_count: be_u16(s, at),
                unpacked: s[at + 2],
                padding: s[at + 3],
                palette_format: PaletteFormat::spec_from_u32(be_u32(s, at + 4))->0,
                palette_data_offset: be_u32(s, at + 8),
            },
        )
    }
}

/// The image header stored at `at`.
pub open spec fn spec_image_header(s: Seq<u8>, at: int) -> Result<ImageHeader, TplError> {
    if at + 8 > s.len() {
        Err(TplError::IOError)
    } else if TextureFormat::spec_from_u32(be_u32(s, at + 4)) is None {
        Err(TplError::FormatError)
    } else if at + 16 > s.len() {
        Err(TplError::IOError)
    } else if WrapMode::spec_from_u32(be_u32(s, at + 12)) is None {
        Err(TplError::FormatError)
    } else if at + 20 > s.len() {
        Err(TplError::IOError)
    } else if WrapMode::spec_from_u32(be_u32(s, at + 16)) is None {
        Err(TplError::FormatError)
    } else if at + 24 > s.len() {
        Err(TplError::IOError)
    } else if FilterMode::spec_from_u32(be_u32(s, at + 20)) is None {
        Err(TplError::FormatError)
    } else if at + 28 > s.len() {
        Err(TplError::IOError)
    } else if FilterMode::spec_from_u32(be_u32(s, at + 24)) is None {
        Err(TplError::FormatError)
    } else if at + 36 > s.len() {
        Err(TplError::IOError)
    } else {
        Ok(
            ImageHeader {
                height: be_u16(s, at),
                width: be_u16(s, at + 2),
                format: TextureFormat::spec_from_u32(be_u32(s, at + 4))->0,
                image_data_offset: be_u32(s, at + 8),
                wrap_s: WrapMode::spec_from_u32(be_u32(s, at + 12))->0,
                wrap_t: WrapMode::spec_from_u32(be_u32(s, at + 16))->0,
                min_filter: FilterMode::spec_from_u32(be_u32(s, at + 20))->0,
                mag_filter: FilterMode::spec_from_u32(be_u32(s, at + 24))->0,
                lod_bias: be_u32(s, at + 28),
                edge_lod_enable: s[at + 32],
                min_lod: s[at + 33],
                max_lod: s[at + 34],
                unpacked: s[at + 35],
            },
        )
    }
}

/// The 12 bytes of a file header.
pub open spec fn file_header_bytes(h: FileHeader) -> Seq<u8> {
    u32_bytes(h.identifier) + u32_bytes(h.image_count) + u32_bytes(h.image_offset)
}

/// The 8 bytes of an entry of the table of image offsets.
pub open spec fn image_offset_bytes(o: ImageOffset) -> Seq<u8> {
    u32_bytes(o.image_header_offset) + u32_bytes(o.palette_header_offset)
}

/// The 12 bytes of a palette header.
pub open spec fn palette_header_bytes(p: PaletteHeader) -> Seq<u8> {
    u16_bytes(p.entry_count) + seq![p.unpacked] + seq![p.padding] + u32_bytes(
        p.palette_format.code(),
    ) + u32_bytes(p.palette_data_offset)
}

/// The 36 bytes of an image header.
pub open spec fn image_header_bytes(h: ImageHeader) -> Seq<u8> {
    u16_bytes(h.height) + u16_bytes(h.width) + u32_bytes(h.format.code()) + u32_bytes(
        h.image_data_offset,
    ) + u32_bytes(h.wrap_s.code()) + u32_bytes(h.wrap_t.code()) + u32_bytes(h.min_filter.code())
        + u32_bytes(h.mag_filter.code()) + u32_bytes(h.lod_bias) + seq![h.edge_lod_enable] + seq![
        h.min_lod,
    ] + seq![h.max_lod] + seq![h.unpacked]
}

impl FileHeader {
    /// Reads a file header at the cursor's position and moves past it.
    pub fn read_be(reader: &mut ByteCursor) -> (r: Result<FileHeader, TplError>)
        ensures
            final(reader).bytes() == old(reader).bytes(),
            r == spec_file_header(old(reader).bytes(), old(reader).offset()),
            r is Ok ==> final(reader).offset() == old(reader).offset() + 12,
    {
        let identifier = reader.read_u32()?;
        let image_count = reader.read_u32()?;
        let image_offset = reader.read_u32()?;
        Ok(FileHeader { identifier, image_count, image_offset })
    }

    /// Appends the header's 12 bytes.
    pub fn write_be(&self, writer: &mut Vec<u8>)
        ensures
            final(writer)@ == old(writer)@ + file_header_bytes(*self),
    {
        put_u32(writer, self.identifier);
        put_u32(writer, self.image_count);
        put_u32(writer, self.image_offset);
        assert(writer@ =~= old(writer)@ + file_header_bytes(*self));
    }
}

impl ImageOffset {
    /// Reads an entry of the table of image offsets at the cursor's position
    /// and moves past it.
    pub fn read_be(reader: &mut ByteCursor) -> (r: Result<ImageOffset, TplError>)
        ensures
            final(reader).bytes() == old(reader).bytes(),
            r == spec_image_offset(old(reader).bytes(), old(reader).offset()),
            r is Ok ==> final(reader).offset() == old(reader).offset() + 8,
    {
        let image_header_offset = reader.read_u32()?;
        let palette_header_offset = reader.read_u32()?;
        Ok(ImageOffset { image_header_offset, palette_header_offset })
    }

    /// Appends the entry's 8 bytes.
    pub fn write_be(&self, writer: &mut Vec<u8>)
        ensures
            final(writer)@ == old(writer)@ + image_offset_bytes(*self),
    {
        put_u32(writer, self.image_header_offset);
        put_u32(writer, self.palette_header_offset);
        assert(writer@ =~= old(writer)@ + image_offset_bytes(*self));
    }
}

impl PaletteHeader {
    /// Reads a palette header at the cursor's position and moves past it.
    pub fn read_be(reader: &mut ByteCursor) -> (r: Result<PaletteHeader, TplError>)
        ensures
            final(reader).bytes() == old(reader).bytes(),
            r == spec_palette_header(old(reader).bytes(), old(reader).offset()),
            r is Ok ==> final(reader).offset() == old(reader).offset() + 12,
    {
        let entry_count = reader.read_u16()?;
        let unpacked = reader.read_u8()?;
        let padding = reader.read_u8()?;
        let palette_format = match PaletteFormat::from_u32(reader.read_u32()?) {
            Some(f) => f,
            None => {
                return Err(TplError::FormatError);
            },
        };
        let palette_data_offset = reader.read_u32()?;
        Ok(PaletteHeader { entry_count, unpacked, padding, palette_format, palette_data_offset })
    }

    /// Appends the header's 12 bytes.
    pub fn write_be(&self, writer: &mut Vec<u8>)
        ensures
            final(writer)@ == old(writer)@ + palette_header_bytes(*self),
    {
        let ghost start = writer@;
        put_u16(writer, self.entry_count);
        let ghost mut done = u16_bytes(self.entry_count);
        put_u8(writer, self.unpacked);
        proof {
            lemma_appended(start, done, seq![self.unpacked]);
            done = done + seq![self.unpacked];
        }
        put_u8(writer, self.padding);
        proof {
            lemma_appended(start, done, seq![self.padding]);
            done = done + seq![self.padding];
        }
        put_u32(writer, self.palette_format.to_u32());
        proof {
            lemma_appended(start, done, u32_bytes(self.palette_format.code()));
            done = done + u32_bytes(self.palette_format.code());
        }
        put_u32(writer, self.palette_data_offset);
        proof {
            lemma_appended(start, done, u32_bytes(self.palette_data_offset));
        }
    }
}

impl ImageHeader {
    /// Reads an image header at the cursor's position and moves past it.
    pub fn read_be(reader: &mut ByteCursor) -> (r: Result<ImageHeader, TplError>)
        ensures
            final(reader).bytes() == old(reader).bytes(),
            r == spec_image_header(old(reader).bytes(), old(reader).offset()),
            r is Ok ==> final(reader).offset() == old(reader).offset() + 36,
    {
        let height = reader.read_u16()?;
        let width = reader.read_u16()?;
        let format = match TextureFormat::from_u32(reader.read_u32()?) {
            Some(f) => f,
            None => {
                return Err(TplError::FormatError);
            },
        };
        let image_data_offset = reader.read_u32()?;
        let wrap_s = match WrapMode::from_u32(reader.read_u32()?) {
            Some(w) => w,
            None => {
                return Err(TplError::FormatError);
            },
        };
        let wrap_t = match WrapMode::from_u32(reader.read_u32()?) {
            Some(w) => w,
            None => {
                return Err(TplError::FormatError);
            },
        };
        let min_filter = match FilterMode::from_u32(reader.read_u32()?) {
            Some(f) => f,
            None => {
                return Err(TplError::FormatError);
            },
        };
        let mag_filter = match FilterMode::from_u32(reader.read_u32()?) {
            Some(f) => f,
            None => {
                return Err(TplError::FormatError);
            },
        };
        let lod_bias = reader.read_u32()?;
        let edge_lod_enable = reader.read_u8()?;
        let min_lod = reader.read_u8()?;
        let max_lod = reader.read_u8()?;
        let unpacked = reader.read_u8()?;
        Ok(
            ImageHeader {
                height,
                width,
                format,
                image_data_offset,
                wrap_s,
                wrap_t,
                min_filter,
                mag_filter,
                lod_bias,
                edge_lod_enable,
                min_lod,
                max_lod,
                unpacked,
            },
        )
    }

    /// Appends the header's 36 bytes.
    pub fn write_be(&self, writer: &mut Vec<u8>)
        ensures
            final(writer)@ == old(writer)@ + image_header_bytes(*self),
    {
        let ghost start = writer@;
        put_u16(writer, self.height);
        let ghost mut done = u16_bytes(self.height);
        put_u16(writer, self.width);
        proof {
            lemma_appended(start, done, u16_bytes(self.width));
            done = done + u16_bytes(self.width);
        }
        put_u32(writer, self.format.to_u32());
        proof {
            lemma_appended(start, done, u32_bytes(self.format.code()));
            done = done + u32_bytes(self.format.code());
        }
        put_u32(writer, self.image_data_offset);
        proof {
            lemma_appended(start, done, u32_bytes(self.image_data_offset));
            done = done + u32_bytes(self.image_data_offset);
        }
        put_u32(writer, self.wrap_s.to_u32());
        proof {
            lemma_appended(start, done, u32_bytes(self.wrap_s.code()));
            done = done + u32_bytes(self.wrap_s.code());
        }
        put_u32(writer, self.wrap_t.to_u32());
        proof {
            lemma_appended(start, done, u32_bytes(self.wrap_t.code()));
            done = done + u32_bytes(self.wrap_t.code());
        }
        put_u32(writer, self.min_filter.to_u32());
        proof {
            lemma_appended(start, done, u32_bytes(self.min_filter.code()));
            done = done + u32_bytes(self.min_filter.code());
        }
        put_u32(writer, self.mag_filter.to_u32());
        proof {
            lemma_appended(start, done, u32_bytes(self.mag_filter.code()));
            done = done + u32_bytes(self.mag_filter.code());
        }
        put_u32(writer, self.lod_bias);
        proof {
            lemma_appended(start, done, u32_bytes(self.lod_bias));
            done = done + u32_bytes(self.lod_bias);
        }
        put_u8(writer, self.edge_lod_enable);
        proof {
            lemma_appended(start, done, seq![self.edge_lod_enable]);
            done = done + seq![self.edge_lod_enable];
        }
        put_u8(writer, self.min_lod);
        proof {
            lemma_appended(start, done, seq![self.min_lod]);
            done = done + seq![self.min_lod];
        }
        put_u8(writer, self.max_lod);
        proof {
            lemma_appended(start, done, seq![self.max_lod]);
            done = done + seq![self.max_lod];
        }
        put_u8(writer, self.unpacked);
        proof {
            lemma_appended(start, done, seq![self.unpacked]);
            done = done + seq![self.unpacked];
        }
    }
}

/// The 16-bit field that a record holds `k` bytes from its start is read
/// from the bytes in which the record lies.
proof fn lemma_field_u16(s: Seq<u8>, at: int, record: Seq<u8>, k: int, v: u16)
    requires
        0 <= at,
        at + record.len() <= s.len(),
        s.subrange(at, at + record.len()) == record,
        0 <= k,
        k + 2 <= record.len(),
        record.subrange(k, k + 2) == u16_bytes(v),
    ensures
        be_u16(s, at + k) == v,
{
    let within = s.subrange(at, at + record.len());
    assert(within[k] == s[at + k] && within[k + 1] == s[at + k + 1]);
    assert(s.subrange(at + k, at + k + 2) =~= record.subrange(k, k + 2));
    lemma_be_u16_of_bytes(s, at + k, v);
}

/// The 32-bit field that a record holds `k` bytes from its start is read
/// from the bytes in which the record lies.
proof fn lemma_field_u32(s: Seq<u8>, at: int, record: Seq<u8>, k: int, v: u32)
    requires
        0 <= at,
        at + record.len() <= s.len(),
        s.subrange(at, at + record.len()) == record,
        0 <= k,
        k + 4 <= record.len(),
        record.subrange(k, k + 4) == u32_bytes(v),
    ensures
        be_u32(s, at + k) == v,
{
    let within = s.subrange(at, at + record.len());
    assert(within[k] == s[at + k] && within[k + 1] == s[at + k + 1] && within[k + 2] == s[at + k
        + 2] && within[k + 3] == s[at + k + 3]);
    assert(s.subrange(at + k, at + k + 4) =~= record.subrange(k, k + 4));
    lemma_be_u32_of_bytes(s, at + k, v);
}

/// The byte that a record holds `k` bytes from its start is the byte of the
/// bytes in which the record lies.
proof fn lemma_field_u8(s: Seq<u8>, at: int, record: Seq<u8>, k: int)
    requires
        0 <= at,
        at + record.len() <= s.len(),
        s.subrange(at, at + record.len()) == record,
        0 <= k < record.len(),
    ensures
        s[at + k] == record[k],
{
    assert(s.subrange(at, at + record.len())[k] == s[at + k]);
}

/// A piece appended to a record lies at the record's end, and what lay in
/// the record lies where it lay.
proof fn lemma_piece(done: Seq<u8>, piece: Seq<u8>)
    ensures
        (done + piece).len() == done.len() + piece.len(),
        (done + piece).subrange(done.len() as int, (done.len() + piece.len()) as int) == piece,
        forall|i: int, j: int|
            0 <= i <= j <= done.len() ==> #[trigger] (done + piece).subrange(i, j) == done.subrange(
                i,
                j,
            ),
{
    assert((done + piece).subrange(done.len() as int, (done.len() + piece.len()) as int) =~= piece);
    assert forall|i: int, j: int| 0 <= i <= j <= done.len() implies #[trigger] (done
        + piece).subrange(i, j) == done.subrange(i, j) by {
        assert((done + piece).subrange(i, j) =~= done.subrange(i, j));
    }
}

/// A file header is read back from its bytes, wherever they lie.
pub proof fn lemma_file_header_read_back(s: Seq<u8>, at: int, h: FileHeader)
    requires
        0 <= at,
        at + 12 <= s.len(),
        s.subrange(at, at + 12) == file_header_bytes(h),
    ensures
        spec_file_header(s, at) == Ok::<FileHeader, TplError>(h),
{
    let a = u32_bytes(h.identifier);
    let b = a + u32_bytes(h.image_count);
    let c = b + u32_bytes(h.image_offset);
    lemma_piece(a, u32_bytes(h.image_count));
    lemma_piece(b, u32_bytes(h.image_offset));
    assert(a.subrange(0, 4) =~= a);
    assert(c.subrange(0, 4) == a);
    assert(c.subrange(4, 8) == u32_bytes(h.image_count));
    lemma_field_u32(s, at, c, 0, h.identifier);
    lemma_field_u32(s, at, c, 4, h.image_count);
    lemma_field_u32(s, at, c, 8, h.image_offset);
}

/// An entry of the table of image offsets is read back from its bytes.
pub proof fn lemma_image_offset_read_back(s: Seq<u8>, at: int, o: ImageOffset)
    requires
        0 <= at,
        at + 8 <= s.len(),
        s.subrange(at, at + 8) == image_offset_bytes(o),
    ensures
        spec_image_offset(s, at) == Ok::<ImageOffset, TplError>(o),
{
    let a = u32_bytes(o.image_header_offset);
    let b = a + u32_bytes(o.palette_header_offset);
    lemma_piece(a, u32_bytes(o.palette_header_offset));
    assert(a.subrange(0, 4) =~= a);
    assert(b.subrange(0, 4) == a);
    lemma_field_u32(s, at, b, 0, o.image_header_offset);
    lemma_field_u32(s, at, b, 4, o.palette_header_offset);
}

/// A palette header is read back from its bytes.
pub proof fn lemma_palette_header_read_back(s: Seq<u8>, at: int, p: PaletteHeader)
    requires
        0 <= at,
        at + 12 <= s.len(),
        s.subrange(at, at + 12) == palette_header_bytes(p),
    ensures
        spec_palette_header(s, at) == Ok::<PaletteHeader, TplError>(p),
{
    let a = u16_bytes(p.entry_count);
    let b = a + seq![p.unpacked];
    let c = b + seq![p.padding];
    let d = c + u32_bytes(p.palette_format.code());
    let e = d + u32_bytes(p.palette_data_offset);
    lemma_piece(a, seq![p.unpacked]);
    lemma_piece(b, seq![p.padding]);
    lemma_piece(c, u32_bytes(p.palette_format.code()));
    lemma_piece(d, u32_bytes(p.palette_data_offset));
    assert(a.subrange(0, 2) =~= a);
    assert(b.subrange(0, 2) == a);
    assert(c.subrange(0, 2) == a);
    assert(d.subrange(0, 2) == a);
    assert(e.subrange(0, 2) == a);
    assert(c.subrange(2, 3) == seq![p.unpacked]);
    assert(d.subrange(2, 3) == seq![p.unpacked]);
    assert(e.subrange(2, 3) == seq![p.unpacked]);
    assert(e.subrange(2, 3)[0] == e[2]);
    assert(d.subrange(3, 4) == seq![p.padding]);
    assert(e.subrange(3, 4) == seq![p.padding]);
    assert(e.subrange(3, 4)[0] == e[3]);
    assert(e.subrange(4, 8) == u32_bytes(p.palette_format.code()));
    lemma_field_u16(s, at, e, 0, p.entry_count);
    lemma_field_u8(s, at, e, 2);
    lemma_field_u8(s, at, e, 3);
    lemma_field_u32(s, at, e, 4, p.palette_format.code());
    lemma_field_u32(s, at, e, 8, p.palette_data_offset);
    lemma_codes_name_variants(
        p.palette_format,
        WrapMode::Clamp,
        FilterMode::Nearest,
        TextureFormat::I4,
    );
}

/// The first four fields of an image header, 12 bytes.
spec fn image_header_sizes(h: ImageHeader) -> Seq<u8> {
    u16_bytes(h.height) + u16_bytes(h.width) + u32_bytes(h.format.code()) + u32_bytes(
        h.image_data_offset,
    )
}

/// The wrap and filter modes of an image header, 16 bytes.
spec fn image_header_modes(h: ImageHeader) -> Seq<u8> {
    u32_bytes(h.wrap_s.code()) + u32_bytes(h.wrap_t.code()) + u32_bytes(h.min_filter.code())
        + u32_bytes(h.mag_filter.code())
}

/// The level-of-detail fields of an image header, 8 bytes.
spec fn image_header_lod(h: ImageHeader) -> Seq<u8> {
    u32_bytes(h.lod_bias) + seq![h.edge_lod_enable] + seq![h.min_lod] + seq![h.max_lod] + seq![
        h.unpacked,
    ]
}

/// The bytes of an image header are its three groups of fields.
proof fn lemma_image_header_groups(h: ImageHeader)
    ensures
        image_header_bytes(h) == image_header_sizes(h) + image_header_modes(h) + image_header_lod(
            h,
        ),
        image_header_sizes(h).len() == 12,
        image_header_modes(h).len() == 16,
        image_header_lod(h).len() == 8,
{
    let a = image_header_sizes(h);
    let ws = u32_bytes(h.wrap_s.code());
    let wt = u32_bytes(h.wrap_t.code());
    let fi = u32_bytes(h.min_filter.code());
    let fa = u32_bytes(h.mag_filter.code());
    lemma_appended(a, ws, wt);
    lemma_appended(a, ws + wt, fi);
    lemma_appended(a, ws + wt + fi, fa);
    let b = a + image_header_modes(h);
    let lod = u32_bytes(h.lod_bias);
    lemma_appended(b, lod, seq![h.edge_lod_enable]);
    lemma_appended(b, lod + seq![h.edge_lod_enable], seq![h.min_lod]);
    lemma_appended(b, lod + seq![h.edge_lod_enable] + seq![h.min_lod], seq![h.max_lod]);
    lemma_appended(
        b,
        lod + seq![h.edge_lod_enable] + seq![h.min_lod] + seq![h.max_lod],
        seq![h.unpacked],
    );
}

/// The first four fields of an image header are read back from their bytes.
proof fn lemma_image_header_sizes_read_back(s: Seq<u8>, at: int, h: ImageHeader)
    requires
        0 <= at,
        at + 12 <= s.len(),
        s.subrange(at, at + 12) == image_header_sizes(h),
    ensures
        be_u16(s, at) == h.height,
        be_u16(s, at + 2) == h.width,
        be_u32(s, at + 4) == h.format.code(),
        be_u32(s, at + 8) == h.image_data_offset,
{
    let a = u16_bytes(h.height);
    let b = a + u16_bytes(h.width);
    let c = b + u32_bytes(h.format.code());
    let d = c + u32_bytes(h.image_data_offset);
    lemma_piece(a, u16_bytes(h.width));
    lemma_piece(b, u32_bytes(h.format.code()));
    lemma_piece(c, u32_bytes(h.image_data_offset));
    assert(a.subrange(0, 2) =~= a);
    assert(d.subrange(0, 2) == a);
    assert(d.subrange(2, 4) == u16_bytes(h.width));
    assert(d.subrange(4, 8) == u32_bytes(h.format.code()));
    lemma_field_u16(s, at, d, 0, h.height);
    lemma_field_u16(s, at, d, 2, h.width);
    lemma_field_u32(s, at, d, 4, h.format.code());
    lemma_field_u32(s, at, d, 8, h.image_data_offset);
}

/// The wrap and filter modes of an image header are read back from their
/// bytes.
proof fn lemma_image_header_modes_read_back(s: Seq<u8>, at: int, h: ImageHeader)
    requires
        0 <= at,
        at + 16 <= s.len(),
        s.subrange(at, at + 16) == image_header_modes(h),
    ensures
        be_u32(s, at) == h.wrap_s.code(),
        be_u32(s, at + 4) == h.wrap_t.code(),
        be_u32(s, at + 8) == h.min_filter.code(),
        be_u32(s, at + 12) == h.mag_filter.code(),
{
    let a = u32_bytes(h.wrap_s.code());
    let b = a + u32_bytes(h.wrap_t.code());
    let c = b + u32_bytes(h.min_filter.code());
    let d = c + u32_bytes(h.mag_filter.code());
    lemma_piece(a, u32_bytes(h.wrap_t.code()));
    lemma_piece(b, u32_bytes(h.min_filter.code()));
    lemma_piece(c, u32_bytes(h.mag_filter.code()));
    assert(a.subrange(0, 4) =~= a);
    assert(d.subrange(0, 4) == a);
    assert(d.subrange(4, 8) == u32_bytes(h.wrap_t.code()));
    assert(d.subrange(8, 12) == u32_bytes(h.min_filter.code()));
    lemma_field_u32(s, at, d, 0, h.wrap_s.code());
    lemma_field_u32(s, at, d, 4, h.wrap_t.code());
    lemma_field_u32(s, at, d, 8, h.min_filter.code());
    lemma_field_u32(s, at, d, 12, h.mag_filter.code());
}

/// The level-of-detail fields of an image header are read back from their
/// bytes.
proof fn lemma_image_header_lod_read_back(s: Seq<u8>, at: int, h: ImageHeader)
    requires
        0 <= at,
        at + 8 <= s.len(),
        s.subrange(at, at + 8) == image_header_lod(h),
    ensures
        be_u32(s, at) == h.lod_bias,
        s[at + 4] == h.edge_lod_enable,
        s[at + 5] == h.min_lod,
        s[at + 6] == h.max_lod,
        s[at + 7] == h.unpacked,
{
    let a = u32_bytes(h.lod_bias);
    let e = image_header_lod(h);
    assert(e.len() == 8);
    assert(e.subrange(0, 4) =~= a);
    assert(e[4] == h.edge_lod_enable && e[5] == h.min_lod && e[6] == h.max_lod && e[7]
        == h.unpacked);
    lemma_field_u32(s, at, e, 0, h.lod_bias);
    lemma_field_u8(s, at, e, 4);
    lemma_field_u8(s, at, e, 5);
    lemma_field_u8(s, at, e, 6);
    lemma_field_u8(s, at, e, 7);
}

/// An image header is read back from its bytes.
pub proof fn lemma_image_header_read_back(s: Seq<u8>, at: int, h: ImageHeader)
    requires
        0 <= at,
        at + 36 <= s.len(),
        s.subrange(at, at + 36) == image_header_bytes(h),
    ensures
        spec_image_header(s, at) == Ok::<ImageHeader, TplError>(h),
{
    lemma_image_header_groups(h);
    let all = s.subrange(at, at + 36);
    assert(s.subrange(at, at + 12) =~= all.subrange(0, 12));
    assert(s.subrange(at + 12, at + 28) =~= all.subrange(12, 28));
    assert(s.subrange(at + 28, at + 36) =~= all.subrange(28, 36));
    assert(all.subrange(0, 12) =~= image_header_sizes(h));
    assert(all.subrange(12, 28) =~= image_header_modes(h));
    assert(all.subrange(28, 36) =~= image_header_lod(h));
    lemma_image_header_sizes_read_back(s, at, h);
    lemma_image_header_modes_read_back(s, at + 12, h);
    lemma_image_header_lod_read_back(s, at + 28, h);
    lemma_codes_name_variants(PaletteFormat::IA8, h.wrap_s, h.min_filter, h.format);
    lemma_codes_name_variants(PaletteFormat::IA8, h.wrap_t, h.mag_filter, h.format);
}

/// Every record takes the number of bytes that its kind takes.
pub proof fn lemma_record_lens(f: FileHeader, o: ImageOffset, p: PaletteHeader, h: ImageHeader)
    ensures
        file_header_bytes(f).len() == 12,
        image_offset_bytes(o).len() == 8,
        palette_header_bytes(p).len() == 12,
        image_header_bytes(h).len() == 36,
{
    lemma_image_header_groups(h);
}

} // verus!
