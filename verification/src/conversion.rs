//! Writing a container as bytes, and building one from a single image.
//!
//! The writer lays the parts out in a fixed order: the file header; the
//! table of image offsets; the palette headers of the images that have one;
//! the palette blocks by ascending offset; the image headers; and, if there
//! is any raw image data, zero bytes up to the next multiple of 32 followed
//! by the image blocks by ascending offset. It writes the offsets that the
//! container holds and does not check that the parts land on them.

use crate::align::{spec_align, Algin};
use crate::codec::{
    codec_encoded, decode_direct, decode_direct_error, encode_direct, encode_direct_error,
    spec_image_size,
};
use crate::decoding::{
    decode_texture_c14x2, decode_texture_c4, decode_texture_c8, indexed_decodable,
    indexed_decoded_byte,
};
use crate::tiling::IndexedFormat;
use crate::ordered::lemma_keys_ascend;
use crate::raster::RgbaImage;
use crate::stream::zeros;
use crate::types::{
    blocks_of, FileHeader, FilterMode, ImageHeader, ImageNode, ImageOffset, PaletteFormat,
    TextureFormat, TplError, TplView, WrapMode, TPL,
};
use crate::wire::{
    file_header_bytes, image_header_bytes, image_offset_bytes, palette_header_bytes,
};
use std::collections::BTreeMap;
use vstd::prelude::*;
use vstd::std_specs::iter::IteratorSpec;

verus! {

/// The entries of the table of offsets of the first `n` images.
pub open spec fn offsets_bytes(nodes: Seq<ImageNode>, n: nat) -> Seq<u8>
    decreases n,
{
    if n == 0 {
        Seq::empty()
    } else {
        offsets_bytes(nodes, (n - 1) as nat) + image_offset_bytes(nodes[n - 1].offset)
    }
}

/// The palette headers of those of the first `n` images that have one.
pub open spec fn palette_headers_bytes(nodes: Seq<ImageNode>, n: nat) -> Seq<u8>
    decreases n,
{
    if n == 0 {
        Seq::empty()
    } else {
        palette_headers_bytes(nodes, (n - 1) as nat) + match nodes[n - 1].palette_header {
            Some(p) => palette_header_bytes(p),
            None => Seq::empty(),
        }
    }
}

/// The image headers of the first `n` images.
pub open spec fn image_headers_bytes(nodes: Seq<ImageNode>, n: nat) -> Seq<u8>
    decreases n,
{
    if n == 0 {
        Seq::empty()
    } else {
        image_headers_bytes(nodes, (n - 1) as nat) + image_header_bytes(nodes[n - 1].image_header)
    }
}

/// The blocks stored under offsets below `bound`, one after the other by
/// ascending offset.
pub open spec fn blocks_below(blocks: Map<u32, Seq<u8>>, bound: nat) -> Seq<u8>
    decreases bound,
{
    if bound == 0 {
        Seq::empty()
    } else {
        let offset = (bound - 1) as u32;
        blocks_below(blocks, (bound - 1) as nat) + if blocks.contains_key(offset) {
            blocks[offset]
        } else {
            Seq::empty()
        }
    }
}

/// All blocks, one after the other by ascending offset.
pub open spec fn blocks_in_order(blocks: Map<u32, Seq<u8>>) -> Seq<u8> {
    blocks_below(blocks, 0x1_0000_0000)
}

/// The part of a written container that lies before the padding.
pub open spec fn spec_written_head(t: TplView) -> Seq<u8> {
    file_header_bytes(t.header) + offsets_bytes(t.nodes, t.nodes.len()) + palette_headers_bytes(
        t.nodes,
        t.nodes.len(),
    ) + blocks_in_order(t.palette_datas) + image_headers_bytes(t.nodes, t.nodes.len())
}

/// Position at which the raw image data of a container starts that is
/// written at position `base`.
pub open spec fn spec_data_start(t: TplView, base: int) -> int {
    spec_align(base + spec_written_head(t).len())
}

/// The bytes of a container that is written at position `base` of a stream.
pub open spec fn spec_written(t: TplView, base: int) -> Seq<u8> {
    if t.image_datas.is_empty() {
        spec_written_head(t)
    } else {
        spec_written_head(t) + zeros(spec_data_start(t, base) - base - spec_written_head(t).len())
            + blocks_in_order(t.image_datas)
    }
}

/// Offsets that hold no block add nothing to the blocks in order.
pub proof fn lemma_blocks_below_skips(blocks: Map<u32, Seq<u8>>, from: nat, to: nat)
    requires
        from <= to <= 0x1_0000_0000,
        forall|k: u32| from <= k < to ==> !blocks.contains_key(k),
    ensures
        blocks_below(blocks, to) == blocks_below(blocks, from),
    decreases to - from,
{
    if from < to {
        lemma_blocks_below_skips(blocks, from, (to - 1) as nat);
        assert(!blocks.contains_key((to - 1) as u32));
    }
}

/// Without blocks there is nothing to put in order.
pub proof fn lemma_no_blocks_in_order(blocks: Map<u32, Seq<u8>>)
    requires
        blocks.is_empty(),
    ensures
        blocks_in_order(blocks) == Seq::<u8>::empty(),
{
    assert forall|k: u32| 0 <= k < 0x1_0000_0000 implies !blocks.contains_key(k) by {
        assert(!blocks.dom().contains(k));
    }
    lemma_blocks_below_skips(blocks, 0, 0x1_0000_0000);
}

/// Appends the blocks of a map by ascending offset.
fn write_blocks(blocks: &BTreeMap<u32, Vec<u8>>, writer: &mut Vec<u8>)
    ensures
        final(writer)@ == old(writer)@ + blocks_in_order(blocks_of(*blocks)),
{
    let ghost m = blocks_of(*blocks);
    let ghost mut bound: nat = 0;
    let iter = blocks.iter();
    let ghost items = iter.remaining();
    proof {
        let keys = items.map_values(|kv: (&u32, &Vec<u8>)| *kv.0);
        lemma_keys_ascend(keys);
        assert forall|i: int, j: int| 0 <= i < j < items.len() implies *(#[trigger] items[i]).0 < *(
        #[trigger] items[j]).0 by {
            assert(keys[i] < keys[j]);
        }
    }
    for kv in it: iter
        invariant
            it.seq() == items,
            m == blocks_of(*blocks),
            bound <= 0x1_0000_0000,
            writer@ == old(writer)@ + blocks_below(m, bound),
            forall|i: int|
                0 <= i < items.len() ==> blocks@.contains_key(*(#[trigger] items[i]).0)
                    && blocks@[*items[i].0] == *items[i].1,
            forall|i: int, j: int|
                0 <= i < j < items.len() ==> *(#[trigger] items[i]).0 < *(#[trigger] items[j]).0,
            forall|k: u32|
                blocks@.contains_key(k) ==> exists|i: int|
                    0 <= i < items.len() && *(#[trigger] items[i]).0 == k,
            forall|i: int| 0 <= i < it.index() ==> *(#[trigger] items[i]).0 < bound,
            forall|i: int| it.index() <= i < items.len() ==> *(#[trigger] items[i]).0 >= bound,
    {
        let ghost key = *kv.0;
        let ghost here = it.index();
        proof {
            assert(*items[here].0 == key);
            assert forall|k: u32| bound <= k < key implies !m.contains_key(k) by {
                if blocks@.contains_key(k) {
                    let i = choose|i: int| 0 <= i < items.len() && *(#[trigger] items[i]).0 == k;
                    if i > here {
                        assert(*items[here].0 < *items[i].0);
                    }
                }
            }
            lemma_blocks_below_skips(m, bound, key as nat);
            assert(m.contains_key(key) && m[key] == kv.1@);
            assert(blocks_below(m, (key + 1) as nat) == blocks_below(m, key as nat) + kv.1@);
        }
        writer.extend_from_slice(kv.1.as_slice());
        proof {
            assert(writer@ =~= old(writer)@ + blocks_below(m, (key + 1) as nat));
            assert forall|i: int| here < i < items.len() implies *(#[trigger] items[i]).0 >= key
                + 1 by {
                assert(*items[here].0 < *items[i].0);
            }
            assert forall|i: int| 0 <= i <= here implies *(#[trigger] items[i]).0 < key + 1 by {
                if i < here {
                    assert(*items[i].0 < *items[here].0);
                }
            }
            bound = (key + 1) as nat;
        }
    }
    proof {
        assert forall|k: u32| bound <= k < 0x1_0000_0000 implies !m.contains_key(k) by {
            if blocks@.contains_key(k) {
                let i = choose|i: int| 0 <= i < items.len() && *(#[trigger] items[i]).0 == k;
            }
        }
        lemma_blocks_below_skips(m, bound, 0x1_0000_0000);
    }
}

/// The identifier in the file header of a container built from an image.
pub const IDENTIFIER: u32 = 2142000;

/// The container that holds one image and nothing else: the table of
/// offsets right after the file header, at 12; the image header after the
/// table's one entry, at 20; the raw data at 64.
pub open spec fn single_image(
    width: u16,
    height: u16,
    format: TextureFormat,
    filter: FilterMode,
    wrap: WrapMode,
    data: Seq<u8>,
) -> TplView {
    TplView {
        header: FileHeader { identifier: IDENTIFIER, image_count: 1, image_offset: 12 },
        nodes: seq![
            ImageNode {
                offset: ImageOffset { image_header_offset: 20, palette_header_offset: 0 },
                image_header: ImageHeader {
                    height,
                    width,
                    format,
                    image_data_offset: 64,
                    wrap_s: wrap,
                    wrap_t: wrap,
                    min_filter: filter,
                    mag_filter: filter,
                    lod_bias: 0,
                    edge_lod_enable: 0,
                    min_lod: 0,
                    max_lod: 0,
                    unpacked: 0,
                },
                palette_header: None,
            },
        ],
        image_datas: Map::<u32, Seq<u8>>::empty().insert(64, data),
        palette_datas: Map::<u32, Seq<u8>>::empty(),
    }
}

/// The error of an attempt to build a container from an image, if it fails:
/// `UnsupportedFormat` for an indexed format; else `FormatError` for an
/// image wider or higher than the 16 bits of the header's fields can say;
/// else the error of encoding it.
pub open spec fn from_rgba_error(format: TextureFormat, width: u32, height: u32, raw_len: int)
    -> Option<TplError> {
    if format.spec_is_indexed() {
        Some(TplError::UnsupportedFormat)
    } else if width > 0xFFFF || height > 0xFFFF {
        Some(TplError::FormatError)
    } else {
        encode_direct_error(format, raw_len, width as int, height as int)
    }
}

/// The palette format and the palette of an image: those of its palette
/// header, or IA8 and no entries where it has no header or no block lies
/// under the header's offset.
pub open spec fn spec_palette_of(t: TplView, node: ImageNode) -> (PaletteFormat, Seq<u8>) {
    match node.palette_header {
        Some(p) => (
            p.palette_format,
            if t.palette_datas.contains_key(p.palette_data_offset) {
                t.palette_datas[p.palette_data_offset]
            } else {
                Seq::empty()
            },
        ),
        None => (PaletteFormat::IA8, Seq::empty()),
    }
}

/// The raw data of an image: the block under its offset, or no bytes where
/// none lies there.
pub open spec fn spec_data_of(t: TplView, node: ImageNode) -> Seq<u8> {
    if t.image_datas.contains_key(node.image_header.image_data_offset) {
        t.image_datas[node.image_header.image_data_offset]
    } else {
        Seq::empty()
    }
}

/// The tile geometry of a format whose pixels are palette indices.
pub open spec fn spec_indexed_kind(format: TextureFormat) -> Option<IndexedFormat> {
    match format {
        TextureFormat::C4 => Some(IndexedFormat::C4),
        TextureFormat::C8 => Some(IndexedFormat::C8),
        TextureFormat::C14X2 => Some(IndexedFormat::C14X2),
        _ => None,
    }
}

/// The error of an attempt to decode image `index`, if it fails. An indexed
/// image fails with `BufferTooSmall` where the raw data or the palette is
/// too short for it, or where its pixels cannot be counted in a `usize`. Any
/// other image fails as `decode_direct` does.
pub open spec fn get_image_error(t: TplView, index: int) -> Option<TplError> {
    let node = t.nodes[index];
    let h = node.image_header;
    match spec_indexed_kind(h.format) {
        Some(kind) => if 4 * (h.width * h.height) <= usize::MAX && indexed_decodable(
            kind,
            4 * (h.width * h.height),
            spec_data_of(t, node),
            h.width as int,
            h.height as int,
            spec_palette_of(t, node).1,
        ) {
            None
        } else {
            Some(TplError::BufferTooSmall)
        },
        None => decode_direct_error(
            h.format,
            spec_data_of(t, node).len() as int,
            h.width as int,
            h.height as int,
        ),
    }
}

/// The RGBA8888 bytes of image `index`, whose format is indexed with the
/// tile geometry `kind`: every pixel is the palette entry that the raw data
/// names for it.
pub open spec fn spec_indexed_image(t: TplView, index: int, kind: IndexedFormat) -> Seq<u8> {
    let node = t.nodes[index];
    let h = node.image_header;
    Seq::new(
        (4 * (h.width * h.height)) as nat,
        |i: int|
            indexed_decoded_byte(
                kind,
                spec_data_of(t, node),
                h.width as int,
                spec_palette_of(t, node).1,
                spec_palette_of(t, node).0,
                i,
            ),
    )
}

fn indexed_kind(format: TextureFormat) -> (r: Option<IndexedFormat>)
    ensures
        r == spec_indexed_kind(format),
{
    match format {
        TextureFormat::C4 => Some(IndexedFormat::C4),
        TextureFormat::C8 => Some(IndexedFormat::C8),
        TextureFormat::C14X2 => Some(IndexedFormat::C14X2),
        _ => None,
    }
}

impl TPL {
    /// Builds the container of one image, encoded in `format`, with one
    /// filter for minification and magnification and one wrap mode for both
    /// directions.
    pub fn from_rgba_image(
        image: RgbaImage,
        format: TextureFormat,
        filter: FilterMode,
        wrap: WrapMode,
    ) -> (r: Result<TPL, TplError>)
        ensures
            match r {
                Ok(tpl) => from_rgba_error(
                    format,
                    image.spec_width(),
                    image.spec_height(),
                    image.spec_raw().len() as int,
                ) is None && tpl@ == single_image(
                    image.spec_width() as u16,
                    image.spec_height() as u16,
                    format,
                    filter,
                    wrap,
                    codec_encoded(
                        format.code(),
                        image.spec_raw(),
                        image.spec_width(),
                        image.spec_height(),
                    ),
                ) && tpl@.image_datas[64].len() == spec_image_size(
                    format,
                    image.spec_width() as int,
                    image.spec_height() as int,
                ),
                Err(e) => from_rgba_error(
                    format,
                    image.spec_width(),
                    image.spec_height(),
                    image.spec_raw().len() as int,
                ) == Some(e),
            },
    {
        if format.is_indexed() {
            return Err(TplError::UnsupportedFormat);
        }
        if image.width() > 0xFFFF || image.height() > 0xFFFF {
            return Err(TplError::FormatError);
        }
        let width = image.width() as u16;
        let height = image.height() as u16;
        let encoded = encode_direct(format, image.as_raw().as_slice(), width, height)?;
        let node = ImageNode {
            offset: ImageOffset { image_header_offset: 20, palette_header_offset: 0 },
            image_header: ImageHeader {
                height,
                width,
                format,
                image_data_offset: 64,
                wrap_s: wrap,
                wrap_t: wrap,
                min_filter: filter,
                mag_filter: filter,
                lod_bias: 0,
                edge_lod_enable: 0,
                min_lod: 0,
                max_lod: 0,
                unpacked: 0,
            },
            palette_header: None,
        };
        let mut nodes: Vec<ImageNode> = Vec::new();
        nodes.push(node);
        let mut image_datas: BTreeMap<u32, Vec<u8>> = BTreeMap::new();
        image_datas.insert(64, encoded);
        let palette_datas: BTreeMap<u32, Vec<u8>> = BTreeMap::new();
        let tpl = TPL {
            header: FileHeader { identifier: IDENTIFIER, image_count: 1, image_offset: 12 },
            nodes,
            image_datas,
            palette_datas,
        };
        proof {
            let want = single_image(
                width,
                height,
                format,
                filter,
                wrap,
                codec_encoded(
                    format.code(),
                    image.spec_raw(),
                    image.spec_width(),
                    image.spec_height(),
                ),
            );
            assert(tpl@.nodes =~= want.nodes);
            assert(tpl@.image_datas =~= want.image_datas);
            assert(tpl@.palette_datas =~= want.palette_datas);
        }
        Ok(tpl)
    }

    /// Appends the container to `writer`, whose length is the position in
    /// the stream. It fails, with `IOError`, only where the padding before
    /// the raw image data would take `writer` past `usize::MAX` bytes; what
    /// lies before the padding is written then.
    pub fn write_into(&self, writer: &mut Vec<u8>) -> (r: Result<(), TplError>)
        ensures
            r is Ok <==> self@.image_datas.is_empty() || spec_data_start(
                self@,
                old(writer)@.len() as int,
            ) <= usize::MAX,
            r is Ok ==> final(writer)@ == old(writer)@ + spec_written(
                self@,
                old(writer)@.len() as int,
            ),
            r is Err ==> r == Err::<(), TplError>(TplError::IOError) && final(writer)@ == old(writer)@
                + spec_written_head(self@),
    {
        let ghost start = writer@;
        self.header.write_be(writer);
        let mut i: usize = 0;
        while i < self.nodes.len()
            invariant
                i <= self.nodes@.len(),
                writer@ == start + file_header_bytes(self.header) + offsets_bytes(
                    self.nodes@,
                    i as nat,
                ),
            decreases self.nodes@.len() - i,
        {
            self.nodes[i].offset.write_be(writer);
            i += 1;
        }
        let ghost tabled = writer@;
        let mut i: usize = 0;
        while i < self.nodes.len()
            invariant
                i <= self.nodes@.len(),
                writer@ == tabled + palette_headers_bytes(self.nodes@, i as nat),
            decreases self.nodes@.len() - i,
        {
            if let Some(palette) = self.nodes[i].palette_header {
                palette.write_be(writer);
            }
            i += 1;
        }
        write_blocks(&self.palette_datas, writer);
        let ghost paletted = writer@;
        let mut i: usize = 0;
        while i < self.nodes.len()
            invariant
                i <= self.nodes@.len(),
                writer@ == paletted + image_headers_bytes(self.nodes@, i as nat),
            decreases self.nodes@.len() - i,
        {
            self.nodes[i].image_header.write_be(writer);
            i += 1;
        }
        assert(writer@ =~= start + spec_written_head(self@));
        assert(blocks_of(self.image_datas).dom() =~= self.image_datas@.dom());
        if self.image_datas.is_empty() {
            return Ok(());
        }
        let ghost headed = writer@;
        writer.align_to()?;
        write_blocks(&self.image_datas, writer);
        assert(writer@ =~= start + spec_written(self@, start.len() as int));
        Ok(())
    }

    /// The container as bytes, written at position 0.
    pub fn into_bytes(&self) -> (r: Result<Vec<u8>, TplError>)
        ensures
            r is Ok <==> self@.image_datas.is_empty() || spec_data_start(self@, 0) <= usize::MAX,
            r matches Ok(bytes) ==> bytes@ == spec_written(self@, 0),
            r is Err ==> r matches Err(TplError::IOError),
    {
        let mut bytes: Vec<u8> = Vec::new();
        self.write_into(&mut bytes)?;
        assert(bytes@ =~= spec_written(self@, 0));
        Ok(bytes)
    }

    /// Decodes image `index` into RGBA8888 pixels, four bytes for each. An
    /// image in an indexed format is decoded tile by tile through its
    /// palette. Any other image is decoded by `gctex`, from the bytes of
    /// its blocks.
    pub fn get_image(&self, index: usize) -> (r: Result<RgbaImage, TplError>)
        requires
            index < self.nodes@.len(),
        ensures
            match r {
                Ok(image) => {
                    let h = self.nodes@[index as int].image_header;
                    &&& get_image_error(self@, index as int) is None
                    &&& image.spec_width() == h.width
                    &&& image.spec_height() == h.height
                    &&& image.spec_raw().len() == 4 * (h.width * h.height)
                    &&& spec_indexed_kind(h.format) matches Some(kind) ==> image.spec_raw()
                        == spec_indexed_image(self@, index as int, kind)
                },
                Err(e) => get_image_error(self@, index as int) == Some(e),
            },
    {
        let (img, pal) = self.get_node_info(index);
        let ghost node = self.nodes@[index as int];
        let none: Vec<u8> = Vec::new();
        let src: &[u8] = match self.image_datas.get(&img.image_data_offset) {
            Some(block) => block.as_slice(),
            None => none.as_slice(),
        };
        assert(src@ == spec_data_of(self@, node));
        let (tlutformat, tlut): (PaletteFormat, &[u8]) = match pal {
            Some(p) => (
                p.palette_format,
                match self.palette_datas.get(&p.palette_data_offset) {
                    Some(block) => block.as_slice(),
                    None => none.as_slice(),
                },
            ),
            None => (PaletteFormat::IA8, none.as_slice()),
        };
        assert(tlutformat == spec_palette_of(self@, node).0);
        assert(tlut@ == spec_palette_of(self@, node).1);
        let width = img.width;
        let height = img.height;
        let pixels = match indexed_kind(img.format) {
            Some(kind) => {
                assert(width * height <= 0xFFFF * 0xFFFF) by (nonlinear_arith)
                    requires
                        width <= 0xFFFF,
                        height <= 0xFFFF,
                ;
                let need: u64 = 4 * (width as u64 * height as u64);
                if need > usize::MAX as u64 {
                    return Err(TplError::BufferTooSmall);
                }
                let mut dst: Vec<u8> = vec![0u8; need as usize];
                let res = match kind {
                    IndexedFormat::C4 => decode_texture_c4(
                        dst.as_mut_slice(),
                        src,
                        width as usize,
                        height as usize,
                        tlut,
                        tlutformat,
                    ),
                    IndexedFormat::C8 => decode_texture_c8(
                        dst.as_mut_slice(),
                        src,
                        width as usize,
                        height as usize,
                        tlut,
                        tlutformat,
                    ),
                    IndexedFormat::C14X2 => decode_texture_c14x2(
                        dst.as_mut_slice(),
                        src,
                        width as usize,
                        height as usize,
                        tlut,
                        tlutformat,
                    ),
                };
                if res.is_err() {
                    return Err(TplError::BufferTooSmall);
                }
                assert(dst@ =~= spec_indexed_image(self@, index as int, kind));
                dst
            },
            None => decode_direct(img.format, src, width, height)?,
        };
        match RgbaImage::from_raw(width as u32, height as u32, pixels) {
            Some(image) => Ok(image),
            None => Err(TplError::BufferTooSmall),
        }
    }
}

} // verus!
