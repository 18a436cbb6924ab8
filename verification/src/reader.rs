//! Reading a container from bytes.
//!
//! The file header names the table of image offsets; each entry of the table
//! names an image header and, unless its palette offset is 0, a palette
//! header. When all headers are read, the raw data of the palettes is read,
//! image by image, and then the raw data of the images. A block read under
//! an offset replaces the block that an earlier image left under it.
//!
//! The first thing that cannot be read decides the error. An offset past the
//! end of the bytes, or bytes that end inside a record or a palette, give
//! `IOError`; a number that names no variant gives `FormatError`; raw image
//! data that the bytes do not hold in full gives `BufferTooSmall`.

use crate::types::{
    blocks_of, FileHeader, ImageHeader, ImageNode, ImageOffset, PaletteHeader, TplError, TplView,
    TPL,
};
use crate::stream::ByteCursor;
use crate::wire::{spec_file_header, spec_image_header, spec_image_offset, spec_palette_header};
use std::collections::BTreeMap;
use vstd::prelude::*;

verus! {

/// The image header that an entry of the table of offsets points to.
pub open spec fn spec_load_image(s: Seq<u8>, o: ImageOffset) -> Result<ImageHeader, TplError> {
    if o.image_header_offset > s.len() {
        Err(TplError::IOError)
    } else {
        spec_image_header(s, o.image_header_offset as int)
    }
}

/// The palette header that an entry of the table of offsets points to, if it
/// points to one.
pub open spec fn spec_load_palette(s: Seq<u8>, o: ImageOffset) -> Result<
    Option<PaletteHeader>,
    TplError,
> {
    if !o.spec_has_palette() {
        Ok(None)
    } else if o.palette_header_offset > s.len() {
        Err(TplError::IOError)
    } else {
        match spec_palette_header(s, o.palette_header_offset as int) {
            Ok(p) => Ok(Some(p)),
            Err(e) => Err(e),
        }
    }
}

/// The image whose entry in the table of offsets is stored at `at`.
pub open spec fn spec_read_node(s: Seq<u8>, at: int) -> Result<ImageNode, TplError> {
    match spec_image_offset(s, at) {
        Err(e) => Err(e),
        Ok(offset) => match spec_load_image(s, offset) {
            Err(e) => Err(e),
            Ok(image_header) => match spec_load_palette(s, offset) {
                Err(e) => Err(e),
                Ok(palette_header) => Ok(ImageNode { offset, image_header, palette_header }),
            },
        },
    }
}

/// The first `count` images of the table of offsets that starts at `at`, or
/// the error of the first of them that cannot be read.
pub open spec fn spec_read_nodes(s: Seq<u8>, at: int, count: nat) -> Result<
    Seq<ImageNode>,
    TplError,
>
    decreases count,
{
    if count == 0 {
        Ok(Seq::empty())
    } else {
        match spec_read_nodes(s, at, (count - 1) as nat) {
            Err(e) => Err(e),
            Ok(nodes) => match spec_read_node(s, at + 8 * (count - 1)) {
                Err(e) => Err(e),
                Ok(node) => Ok(nodes.push(node)),
            },
        }
    }
}

/// The entries of a palette: two bytes for each, from the palette's offset.
pub open spec fn spec_palette_block(s: Seq<u8>, p: PaletteHeader) -> Result<Seq<u8>, TplError> {
    if p.palette_data_offset + 2 * p.entry_count > s.len() {
        Err(TplError::IOError)
    } else {
        Ok(
            s.subrange(
                p.palette_data_offset as int,
                p.palette_data_offset as int + 2 * p.entry_count,
            ),
        )
    }
}

/// The palette blocks of the first `n` images, each under its offset, or the
/// error of the first palette that cannot be read.
pub open spec fn spec_load_palettes(s: Seq<u8>, nodes: Seq<ImageNode>, n: nat) -> Result<
    Map<u32, Seq<u8>>,
    TplError,
>
    decreases n,
{
    if n == 0 {
        Ok(Map::empty())
    } else {
        match spec_load_palettes(s, nodes, (n - 1) as nat) {
            Err(e) => Err(e),
            Ok(blocks) => match nodes[n - 1].palette_header {
                None => Ok(blocks),
                Some(p) => match spec_palette_block(s, p) {
                    Err(e) => Err(e),
                    Ok(block) => Ok(blocks.insert(p.palette_data_offset, block)),
                },
            },
        }
    }
}

/// The raw data of an image: as many bytes as its blocks take, from the
/// image's offset. Raw data longer than 32 bits can count is never held.
pub open spec fn spec_image_block(s: Seq<u8>, h: ImageHeader) -> Result<Seq<u8>, TplError> {
    if h.image_data_offset > s.len() {
        Err(TplError::IOError)
    } else if h.spec_image_size() > u32::MAX || h.image_data_offset + h.spec_image_size()
        > s.len() {
        Err(TplError::BufferTooSmall)
    } else {
        Ok(s.subrange(h.image_data_offset as int, h.image_data_offset + h.spec_image_size()))
    }
}

/// The image blocks of the first `n` images, each under its offset, or the
/// error of the first image whose raw data cannot be read.
pub open spec fn spec_load_images(s: Seq<u8>, nodes: Seq<ImageNode>, n: nat) -> Result<
    Map<u32, Seq<u8>>,
    TplError,
>
    decreases n,
{
    if n == 0 {
        Ok(Map::empty())
    } else {
        match spec_load_images(s, nodes, (n - 1) as nat) {
            Err(e) => Err(e),
            Ok(blocks) => match spec_image_block(s, nodes[n - 1].image_header) {
                Err(e) => Err(e),
                Ok(block) => Ok(blocks.insert(nodes[n - 1].image_header.image_data_offset, block)),
            },
        }
    }
}

/// The container whose file header is stored at `at`. All offsets count
/// from the start of the bytes.
pub open spec fn spec_read_info(s: Seq<u8>, at: int) -> Result<TplView, TplError> {
    match spec_file_header(s, at) {
        Err(e) => Err(e),
        Ok(header) => if header.image_offset > s.len() {
            Err(TplError::IOError)
        } else {
            match spec_read_nodes(s, header.image_offset as int, header.image_count as nat) {
                Err(e) => Err(e),
                Ok(nodes) => match spec_load_palettes(s, nodes, nodes.len()) {
                    Err(e) => Err(e),
                    Ok(palette_datas) => match spec_load_images(s, nodes, nodes.len()) {
                        Err(e) => Err(e),
                        Ok(image_datas) => Ok(
                            TplView { header, nodes, image_datas, palette_datas },
                        ),
                    },
                },
            }
        },
    }
}

/// The error of an image that cannot be read is the error of every longer
/// run of images.
pub proof fn lemma_read_nodes_fails(s: Seq<u8>, at: int, n: nat, count: nat)
    requires
        n < count,
        spec_read_nodes(s, at, n) is Ok,
        spec_read_node(s, at + 8 * n) is Err,
    ensures
        spec_read_nodes(s, at, count) == Err::<Seq<ImageNode>, TplError>(
            spec_read_node(s, at + 8 * n)->Err_0,
        ),
    decreases count,
{
    if count > n + 1 {
        lemma_read_nodes_fails(s, at, n, (count - 1) as nat);
    }
}

/// Reading a run of images gives as many images as were asked for.
pub proof fn lemma_read_nodes_len(s: Seq<u8>, at: int, count: nat)
    requires
        spec_read_nodes(s, at, count) is Ok,
    ensures
        spec_read_nodes(s, at, count)->Ok_0.len() == count,
    decreases count,
{
    if count > 0 {
        lemma_read_nodes_len(s, at, (count - 1) as nat);
    }
}

/// The error of a palette that cannot be read is the error of every longer
/// run of images.
pub proof fn lemma_load_palettes_fails(s: Seq<u8>, nodes: Seq<ImageNode>, n: nat, count: nat)
    requires
        n < count,
        spec_load_palettes(s, nodes, n) is Ok,
        nodes[n as int].palette_header is Some,
        spec_palette_block(s, nodes[n as int].palette_header->0) is Err,
    ensures
        spec_load_palettes(s, nodes, count) == Err::<Map<u32, Seq<u8>>, TplError>(
            spec_palette_block(s, nodes[n as int].palette_header->0)->Err_0,
        ),
    decreases count,
{
    if count > n + 1 {
        lemma_load_palettes_fails(s, nodes, n, (count - 1) as nat);
    }
}

/// The error of an image whose raw data cannot be read is the error of
/// every longer run of images.
pub proof fn lemma_load_images_fails(s: Seq<u8>, nodes: Seq<ImageNode>, n: nat, count: nat)
    requires
        n < count,
        spec_load_images(s, nodes, n) is Ok,
        spec_image_block(s, nodes[n as int].image_header) is Err,
    ensures
        spec_load_images(s, nodes, count) == Err::<Map<u32, Seq<u8>>, TplError>(
            spec_image_block(s, nodes[n as int].image_header)->Err_0,
        ),
    decreases count,
{
    if count > n + 1 {
        lemma_load_images_fails(s, nodes, n, (count - 1) as nat);
    }
}

impl ImageOffset {
    /// Reads the palette header that the entry points to, if it points to
    /// one. The cursor is where it was when this returns, whatever was read.
    pub fn load_palette(&self, reader: &mut ByteCursor) -> (r: Result<
        Option<PaletteHeader>,
        TplError,
    >)
        ensures
            final(reader).bytes() == old(reader).bytes(),
            final(reader).offset() == old(reader).offset(),
            r == spec_load_palette(old(reader).bytes(), *self),
    {
        if !self.has_palette() {
            return Ok(None);
        }
        let pos = reader.stream_position();
        reader.seek(self.palette_header_offset as usize)?;
        let res = PaletteHeader::read_be(reader);
        let back = reader.seek(pos);
        assert(back is Ok);
        match res {
            Ok(p) => Ok(Some(p)),
            Err(e) => Err(e),
        }
    }

    /// Reads the image header that the entry points to. The cursor is where
    /// it was when this returns, whatever was read.
    pub fn load_image(&self, reader: &mut ByteCursor) -> (r: Result<ImageHeader, TplError>)
        ensures
            final(reader).bytes() == old(reader).bytes(),
            final(reader).offset() == old(reader).offset(),
            r == spec_load_image(old(reader).bytes(), *self),
    {
        let pos = reader.stream_position();
        reader.seek(self.image_header_offset as usize)?;
        let res = ImageHeader::read_be(reader);
        let back = reader.seek(pos);
        assert(back is Ok);
        res
    }
}

impl ImageNode {
    /// Reads the entry of the table of offsets at the cursor's position and
    /// the headers that it points to, and moves past the entry.
    pub fn read_info(reader: &mut ByteCursor) -> (r: Result<ImageNode, TplError>)
        ensures
            final(reader).bytes() == old(reader).bytes(),
            r == spec_read_node(old(reader).bytes(), old(reader).offset()),
            r is Ok ==> final(reader).offset() == old(reader).offset() + 8,
    {
        let offset = ImageOffset::read_be(reader)?;
        let image_header = offset.load_image(reader)?;
        let palette_header = offset.load_palette(reader)?;
        Ok(ImageNode { offset, image_header, palette_header })
    }
}

impl TPL {
    /// Reads a container whose file header is at the cursor's position. All
    /// offsets in it count from the start of the cursor's bytes. Where the
    /// cursor is afterwards is left open.
    pub fn read_info(reader: &mut ByteCursor) -> (r: Result<TPL, TplError>)
        ensures
            final(reader).bytes() == old(reader).bytes(),
            match r {
                Ok(tpl) => spec_read_info(old(reader).bytes(), old(reader).offset()) == Ok::<
                    TplView,
                    TplError,
                >(tpl@),
                Err(e) => spec_read_info(old(reader).bytes(), old(reader).offset()) == Err::<
                    TplView,
                    TplError,
                >(e),
            },
    {
        let ghost s = reader.bytes();
        let ghost start = reader.offset();
        let header = FileHeader::read_be(reader)?;
        reader.seek(header.image_offset as usize)?;
        let ghost table = header.image_offset as int;
        let ghost count = header.image_count as nat;
        let mut nodes: Vec<ImageNode> = Vec::new();
        let mut i: u32 = 0;
        while i < header.image_count
            invariant
                i <= header.image_count,
                count == header.image_count,
                table == header.image_offset,
                reader.bytes() == s,
                s == old(reader).bytes(),
                start == old(reader).offset(),
                spec_file_header(s, start) == Ok::<FileHeader, TplError>(header),
                header.image_offset <= s.len(),
                reader.offset() == table + 8 * i,
                spec_read_nodes(s, table, i as nat) == Ok::<Seq<ImageNode>, TplError>(nodes@),
            decreases header.image_count - i,
        {
            match ImageNode::read_info(reader) {
                Ok(node) => {
                    nodes.push(node);
                },
                Err(e) => {
                    proof {
                        lemma_read_nodes_fails(s, table, i as nat, count);
                    }
                    return Err(e);
                },
            }
            i += 1;
        }
        proof {
            lemma_read_nodes_len(s, table, count);
        }
        let mut palette_datas: BTreeMap<u32, Vec<u8>> = BTreeMap::new();
        assert(blocks_of(palette_datas) =~= Map::<u32, Seq<u8>>::empty());
        let mut k: usize = 0;
        while k < nodes.len()
            invariant
                k <= nodes@.len(),
                reader.bytes() == s,
                s == old(reader).bytes(),
                start == old(reader).offset(),
                spec_file_header(s, start) == Ok::<FileHeader, TplError>(header),
                header.image_offset <= s.len(),
                spec_read_nodes(s, header.image_offset as int, header.image_count as nat) == Ok::<
                    Seq<ImageNode>,
                    TplError,
                >(nodes@),
                spec_load_palettes(s, nodes@, k as nat) == Ok::<Map<u32, Seq<u8>>, TplError>(
                    blocks_of(palette_datas),
                ),
            decreases nodes@.len() - k,
        {
            if let Some(palette) = nodes[k].palette_header {
                let size = palette.entry_count as usize * 2;
                let block = match Self::read_block(reader, palette.palette_data_offset, size) {
                    Ok(block) => block,
                    Err(e) => {
                        proof {
                            lemma_load_palettes_fails(s, nodes@, k as nat, nodes@.len());
                        }
                        return Err(e);
                    },
                };
                let ghost before = blocks_of(palette_datas);
                palette_datas.insert(palette.palette_data_offset, block);
                assert(blocks_of(palette_datas) =~= before.insert(
                    palette.palette_data_offset,
                    block@,
                ));
            }
            k += 1;
        }
        let mut image_datas: BTreeMap<u32, Vec<u8>> = BTreeMap::new();
        assert(blocks_of(image_datas) =~= Map::<u32, Seq<u8>>::empty());
        let mut k: usize = 0;
        while k < nodes.len()
            invariant
                k <= nodes@.len(),
                reader.bytes() == s,
                s == old(reader).bytes(),
                start == old(reader).offset(),
                spec_file_header(s, start) == Ok::<FileHeader, TplError>(header),
                header.image_offset <= s.len(),
                spec_read_nodes(s, header.image_offset as int, header.image_count as nat) == Ok::<
                    Seq<ImageNode>,
                    TplError,
                >(nodes@),
                spec_load_palettes(s, nodes@, nodes@.len()) == Ok::<Map<u32, Seq<u8>>, TplError>(
                    blocks_of(palette_datas),
                ),
                spec_load_images(s, nodes@, k as nat) == Ok::<Map<u32, Seq<u8>>, TplError>(
                    blocks_of(image_datas),
                ),
            decreases nodes@.len() - k,
        {
            let image = nodes[k].image_header;
            let block = match Self::read_image_block(reader, &image) {
                Ok(block) => block,
                Err(e) => {
                    proof {
                        lemma_load_images_fails(s, nodes@, k as nat, nodes@.len());
                    }
                    return Err(e);
                },
            };
            let ghost before = blocks_of(image_datas);
            image_datas.insert(image.image_data_offset, block);
            assert(blocks_of(image_datas) =~= before.insert(image.image_data_offset, block@));
            k += 1;
        }
        Ok(TPL { header, nodes, image_datas, palette_datas })
    }

    /// Reads `size` bytes at `offset`.
    fn read_block(reader: &mut ByteCursor, offset: u32, size: usize) -> (r: Result<
        Vec<u8>,
        TplError,
    >)
        ensures
            final(reader).bytes() == old(reader).bytes(),
            r is Ok <==> offset + size <= old(reader).bytes().len(),
            r matches Ok(v) ==> v@ == old(reader).bytes().subrange(offset as int, offset + size),
            r is Err ==> r == Err::<Vec<u8>, TplError>(TplError::IOError),
    {
        reader.seek(offset as usize)?;
        reader.read_exact(size)
    }

    /// Reads the raw data of an image.
    fn read_image_block(reader: &mut ByteCursor, image: &ImageHeader) -> (r: Result<
        Vec<u8>,
        TplError,
    >)
        ensures
            final(reader).bytes() == old(reader).bytes(),
            match r {
                Ok(v) => spec_image_block(old(reader).bytes(), *image) == Ok::<Seq<u8>, TplError>(
                    v@,
                ),
                Err(e) => spec_image_block(old(reader).bytes(), *image) == Err::<
                    Seq<u8>,
                    TplError,
                >(e),
            },
    {
        reader.seek(image.image_data_offset as usize)?;
        let size = match image.checked_image_size() {
            Some(size) => size as usize,
            None => {
                return Err(TplError::BufferTooSmall);
            },
        };
        if size > reader.remaining() {
            return Err(TplError::BufferTooSmall);
        }
        reader.read_exact(size)
    }
}

} // verus!
