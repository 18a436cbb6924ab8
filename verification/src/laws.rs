//! What holds between reading, writing, building and decoding.

use crate::align::spec_align;
use crate::codec::spec_image_size;
use crate::conversion::{
    blocks_below, blocks_in_order, get_image_error, image_headers_bytes, lemma_blocks_below_skips,
    lemma_no_blocks_in_order, offsets_bytes, palette_headers_bytes, single_image,
    spec_data_of, spec_indexed_kind, spec_written, spec_written_head,
};
use crate::decoding::{indexed_decodable, indexed_decoded_byte, palette_len};
use crate::reader::{
    spec_image_block, spec_load_image, spec_load_images, spec_load_palette, spec_load_palettes,
    spec_palette_block, spec_read_info, spec_read_node, spec_read_nodes,
};
use crate::stream::zeros;
use crate::tiling::{
    indexed_source_len, lemma_pixel_coords, lemma_source_row_in_source, lemma_tile_of_pixel,
    palette_index, source_row, IndexedFormat,
};
use crate::types::{
    FileHeader, FilterMode, ImageNode, PaletteFormat, PaletteHeader, TextureFormat, TplError,
    TplView, WrapMode,
};
use crate::wire::{
    file_header_bytes, image_header_bytes, image_offset_bytes, lemma_file_header_read_back,
    lemma_image_header_read_back, lemma_image_offset_read_back, lemma_record_lens,
    spec_file_header,
};
use vstd::prelude::*;

verus! {

/// The container without images.
pub open spec fn empty_container(header: FileHeader) -> TplView {
    TplView {
        header,
        nodes: Seq::empty(),
        image_datas: Map::empty(),
        palette_datas: Map::empty(),
    }
}

/// A file header that counts no images is read as a container without
/// images and without raw data, provided that the table of offsets that it
/// names does not start past the end of the bytes.
pub proof fn lemma_read_without_images(s: Seq<u8>, at: int, header: FileHeader)
    requires
        spec_file_header(s, at) == Ok::<FileHeader, TplError>(header),
        header.image_count == 0,
        header.image_offset <= s.len(),
    ensures
        spec_read_info(s, at) == Ok::<TplView, TplError>(empty_container(header)),
{
    let nodes = Seq::<ImageNode>::empty();
    assert(spec_read_nodes(s, header.image_offset as int, 0) == Ok::<Seq<ImageNode>, TplError>(
        nodes,
    ));
    assert(spec_load_palettes(s, nodes, 0) == Ok::<Map<u32, Seq<u8>>, TplError>(Map::empty()));
    assert(spec_load_images(s, nodes, 0) == Ok::<Map<u32, Seq<u8>>, TplError>(Map::empty()));
}

/// A container without images and without raw data is written as the 12
/// bytes of its file header and nothing else, wherever it is written.
pub proof fn lemma_written_without_images(t: TplView, base: int)
    requires
        t.nodes.len() == 0,
        t.image_datas.is_empty(),
        t.palette_datas.is_empty(),
    ensures
        spec_written(t, base) == file_header_bytes(t.header),
        spec_written(t, base).len() == 12,
{
    lemma_no_blocks_in_order(t.palette_datas);
    assert(spec_written_head(t) =~= file_header_bytes(t.header));
}

/// Whether an image has a palette whose entries start at `offset`.
pub open spec fn names_palette_at(node: ImageNode, offset: u32) -> bool {
    node.palette_header matches Some(p) && p.palette_data_offset == offset
}

/// The palette blocks of a container lie under the offsets that the palette
/// headers of its images name, and under no others: images that name one
/// offset share the one block under it.
pub proof fn lemma_palettes_by_offset(s: Seq<u8>, nodes: Seq<ImageNode>, n: nat)
    requires
        n <= nodes.len(),
        spec_load_palettes(s, nodes, n) is Ok,
    ensures
        spec_load_palettes(s, nodes, n)->Ok_0.dom().finite(),
        forall|offset: u32|
            spec_load_palettes(s, nodes, n)->Ok_0.contains_key(offset) <==> exists|i: int|
                0 <= i < n && #[trigger] names_palette_at(nodes[i], offset),
    decreases n,
{
    let blocks = spec_load_palettes(s, nodes, n)->Ok_0;
    if n > 0 {
        let before = spec_load_palettes(s, nodes, (n - 1) as nat)->Ok_0;
        lemma_palettes_by_offset(s, nodes, (n - 1) as nat);
        assert forall|offset: u32| blocks.contains_key(offset) <==> exists|i: int|
            0 <= i < n && #[trigger] names_palette_at(nodes[i], offset) by {
            if blocks.contains_key(offset) {
                if before.contains_key(offset) {
                    let i = choose|i: int|
                        0 <= i < n - 1 && #[trigger] names_palette_at(nodes[i], offset);
                    assert(names_palette_at(nodes[i], offset));
                } else {
                    assert(names_palette_at(nodes[n - 1], offset));
                }
            }
            if exists|i: int| 0 <= i < n && #[trigger] names_palette_at(nodes[i], offset) {
                let i = choose|i: int| 0 <= i < n && #[trigger] names_palette_at(nodes[i], offset);
                if i < n - 1 {
                    assert(names_palette_at(nodes[i], offset));
                    assert(before.contains_key(offset));
                }
            }
        }
    }
}

/// Where every palette header of a container names the same offset, and
/// there is one at least, the container holds exactly one palette block.
pub proof fn lemma_shared_palette_is_one_block(
    s: Seq<u8>,
    nodes: Seq<ImageNode>,
    n: nat,
    offset: u32,
)
    requires
        n <= nodes.len(),
        spec_load_palettes(s, nodes, n) is Ok,
        forall|i: int|
            0 <= i < n && nodes[i].palette_header is Some ==> #[trigger] names_palette_at(
                nodes[i],
                offset,
            ),
        exists|i: int| 0 <= i < n && #[trigger] names_palette_at(nodes[i], offset),
    ensures
        spec_load_palettes(s, nodes, n)->Ok_0.dom() == Set::<u32>::empty().insert(offset),
        spec_load_palettes(s, nodes, n)->Ok_0.len() == 1,
{
    let blocks = spec_load_palettes(s, nodes, n)->Ok_0;
    lemma_palettes_by_offset(s, nodes, n);
    assert forall|k: u32| blocks.contains_key(k) implies k == offset by {
        let i = choose|i: int| 0 <= i < n && #[trigger] names_palette_at(nodes[i], k);
        assert(names_palette_at(nodes[i], offset));
    }
    assert(blocks.dom() =~= Set::<u32>::empty().insert(offset));
}

/// The block under a palette's offset is the one that the last image with
/// that offset left there: two bytes for each entry that its header counts.
/// A header that counts no entries leaves a block of no bytes.
pub proof fn lemma_last_palette_is_stored(
    s: Seq<u8>,
    nodes: Seq<ImageNode>,
    n: nat,
    i: int,
    p: PaletteHeader,
)
    requires
        0 <= i < n <= nodes.len(),
        spec_load_palettes(s, nodes, n) is Ok,
        nodes[i].palette_header == Some(p),
        forall|j: int| i < j < n ==> !#[trigger] names_palette_at(nodes[j], p.palette_data_offset),
    ensures
        spec_load_palettes(s, nodes, n)->Ok_0.contains_key(p.palette_data_offset),
        spec_load_palettes(s, nodes, n)->Ok_0[p.palette_data_offset] == s.subrange(
            p.palette_data_offset as int,
            p.palette_data_offset + 2 * p.entry_count,
        ),
        spec_load_palettes(s, nodes, n)->Ok_0[p.palette_data_offset].len() == 2 * p.entry_count,
        p.entry_count == 0 ==> spec_load_palettes(s, nodes, n)->Ok_0[p.palette_data_offset]
            == Seq::<u8>::empty(),
    decreases n,
{
    if i < n - 1 {
        assert(!names_palette_at(nodes[n - 1], p.palette_data_offset));
        lemma_last_palette_is_stored(s, nodes, (n - 1) as nat, i, p);
    } else {
        assert(spec_palette_block(s, p) is Ok);
    }
    let block = spec_load_palettes(s, nodes, n)->Ok_0[p.palette_data_offset];
    if p.entry_count == 0 {
        assert(block =~= Seq::<u8>::empty());
    }
}

/// An image with at least one pixel cannot be decoded against a palette
/// without entries.
pub proof fn lemma_empty_palette_undecodable(
    kind: IndexedFormat,
    dst_len: int,
    src: Seq<u8>,
    width: int,
    height: int,
    tlut: Seq<u8>,
)
    requires
        0 < width,
        0 < height,
        tlut.len() < 2,
    ensures
        !indexed_decodable(kind, dst_len, src, width, height, tlut),
{
    assert(palette_len(tlut) == 0);
    assert(palette_index(kind, src, width, 0, 0) >= 0);
}

/// Decoding an indexed image looks at no byte of the source behind the
/// tiles that cover the image: whether it succeeds, and what it yields, is
/// the same for the source cut off there.
pub proof fn lemma_decoding_stays_in_tiles(
    kind: IndexedFormat,
    dst_len: int,
    src: Seq<u8>,
    width: int,
    height: int,
    tlut: Seq<u8>,
    format: PaletteFormat,
)
    requires
        0 < width,
        0 < height,
        indexed_source_len(kind, width, height) <= src.len(),
    ensures
        indexed_decodable(kind, dst_len, src, width, height, tlut) == indexed_decodable(
            kind,
            dst_len,
            src.take(indexed_source_len(kind, width, height)),
            width,
            height,
            tlut,
        ),
        forall|i: int|
            0 <= i < 4 * (width * height) ==> #[trigger] indexed_decoded_byte(
                kind,
                src,
                width,
                tlut,
                format,
                i,
            ) == indexed_decoded_byte(
                kind,
                src.take(indexed_source_len(kind, width, height)),
                width,
                tlut,
                format,
                i,
            ),
{
    let cut = src.take(indexed_source_len(kind, width, height));
    assert forall|px: int, py: int| 0 <= px < width && 0 <= py < height implies #[trigger] palette_index(
        kind,
        src,
        width,
        px,
        py,
    ) == palette_index(kind, cut, width, px, py) by {
        lemma_source_row_in_source(kind, width, height, px, py);
        lemma_tile_of_pixel(kind, width, height, px, py);
        let at = kind.row_bytes() * source_row(kind, width, px, py);
        assert(0 <= at && at + kind.row_bytes() <= cut.len());
    }
    assert forall|i: int| 0 <= i < 4 * (width * height) implies #[trigger] indexed_decoded_byte(
        kind,
        src,
        width,
        tlut,
        format,
        i,
    ) == indexed_decoded_byte(kind, cut, width, tlut, format, i) by {
        lemma_pixel_coords(width, height, i / 4);
    }
    lemma_source_row_in_source(kind, width, height, 0, 0);
    assert(cut.len() == indexed_source_len(kind, width, height));
    if indexed_decodable(kind, dst_len, src, width, height, tlut) {
        assert forall|px: int, py: int| 0 <= px < width && 0 <= py < height implies #[trigger] palette_index(
            kind,
            cut,
            width,
            px,
            py,
        ) < palette_len(tlut) by {
            assert(palette_index(kind, src, width, px, py) < palette_len(tlut));
        }
    }
    if indexed_decodable(kind, dst_len, cut, width, height, tlut) {
        assert forall|px: int, py: int| 0 <= px < width && 0 <= py < height implies #[trigger] palette_index(
            kind,
            src,
            width,
            px,
            py,
        ) < palette_len(tlut) by {
            assert(palette_index(kind, cut, width, px, py) < palette_len(tlut));
        }
    }
}

/// Decoding an indexed image of a container fails with `BufferTooSmall`
/// where the image has pixels and no palette header.
pub proof fn lemma_image_without_palette(t: TplView, index: int)
    requires
        0 <= index < t.nodes.len(),
        spec_indexed_kind(t.nodes[index].image_header.format) is Some,
        t.nodes[index].palette_header is None,
        t.nodes[index].image_header.width > 0,
        t.nodes[index].image_header.height > 0,
    ensures
        get_image_error(t, index) == Some(TplError::BufferTooSmall),
{
    let h = t.nodes[index].image_header;
    lemma_empty_palette_undecodable(
        spec_indexed_kind(h.format)->0,
        4 * (h.width * h.height),
        spec_data_of(t, t.nodes[index]),
        h.width as int,
        h.height as int,
        Seq::<u8>::empty(),
    );
}

/// A map with one block hands out that block.
pub proof fn lemma_one_block_in_order(offset: u32, block: Seq<u8>)
    ensures
        blocks_in_order(Map::<u32, Seq<u8>>::empty().insert(offset, block)) == block,
{
    let m = Map::<u32, Seq<u8>>::empty().insert(offset, block);
    lemma_blocks_below_skips(m, 0, offset as nat);
    assert(blocks_below(m, 0) == Seq::<u8>::empty());
    assert(blocks_below(m, (offset + 1) as nat) == blocks_below(m, offset as nat) + block);
    assert(blocks_below(m, (offset + 1) as nat) =~= block);
    lemma_blocks_below_skips(m, (offset + 1) as nat, 0x1_0000_0000);
}

/// The head of a container of one image without palette: file header,
/// the image's entry in the table of offsets, image header.
proof fn lemma_one_image_head(t: TplView)
    requires
        t.nodes.len() == 1,
        t.nodes[0].palette_header is None,
        t.palette_datas.is_empty(),
    ensures
        spec_written_head(t) == file_header_bytes(t.header) + image_offset_bytes(t.nodes[0].offset)
            + image_header_bytes(t.nodes[0].image_header),
        spec_written_head(t).len() == 56,
{
    reveal_with_fuel(offsets_bytes, 2);
    reveal_with_fuel(palette_headers_bytes, 2);
    reveal_with_fuel(image_headers_bytes, 2);
    lemma_no_blocks_in_order(t.palette_datas);
    let head = file_header_bytes(t.header) + image_offset_bytes(t.nodes[0].offset)
        + image_header_bytes(t.nodes[0].image_header);
    assert(spec_written_head(t) =~= head);
    lemma_record_lens(
        t.header,
        t.nodes[0].offset,
        PaletteHeader {
            entry_count: 0,
            unpacked: 0,
            padding: 0,
            palette_format: PaletteFormat::IA8,
            palette_data_offset: 0,
        },
        t.nodes[0].image_header,
    );
}

/// A container of one image without palette, whose raw data is under one
/// offset, is written at position 0 as its head, eight bytes of zero, and
/// the raw data.
proof fn lemma_one_image_written(t: TplView, offset: u32, data: Seq<u8>)
    requires
        t.nodes.len() == 1,
        t.nodes[0].palette_header is None,
        t.palette_datas.is_empty(),
        t.image_datas == Map::<u32, Seq<u8>>::empty().insert(offset, data),
    ensures
        spec_written(t, 0) == file_header_bytes(t.header) + image_offset_bytes(t.nodes[0].offset)
            + image_header_bytes(t.nodes[0].image_header) + zeros(8) + data,
{
    lemma_one_image_head(t);
    lemma_one_block_in_order(offset, data);
    assert(spec_align(56) == 64);
    assert(!t.image_datas.is_empty()) by {
        assert(t.image_datas.dom().contains(offset));
    }
}

/// Bytes that hold a file header, then the entry of one image at 12, then
/// its image header at 20, are read as that header and that image.
proof fn lemma_one_image_headers_read_back(s: Seq<u8>, header: FileHeader, node: ImageNode)
    requires
        56 <= s.len(),
        s.subrange(0, 12) == file_header_bytes(header),
        s.subrange(12, 20) == image_offset_bytes(node.offset),
        s.subrange(20, 56) == image_header_bytes(node.image_header),
        node.offset.image_header_offset == 20,
        node.offset.palette_header_offset == 0,
        node.palette_header is None,
    ensures
        spec_file_header(s, 0) == Ok::<FileHeader, TplError>(header),
        spec_read_node(s, 12) == Ok::<ImageNode, TplError>(node),
{
    lemma_file_header_read_back(s, 0, header);
    lemma_image_offset_read_back(s, 12, node.offset);
    lemma_image_header_read_back(s, 20, node.image_header);
    assert(spec_load_image(s, node.offset) == Ok::<_, TplError>(node.image_header));
    assert(spec_load_palette(s, node.offset) == Ok::<Option<PaletteHeader>, TplError>(None));
}

/// Bytes whose headers are read as one image without palette are read as
/// the container of that image and its raw data.
proof fn lemma_one_image_read(s: Seq<u8>, header: FileHeader, node: ImageNode, data: Seq<u8>)
    requires
        spec_file_header(s, 0) == Ok::<FileHeader, TplError>(header),
        header.image_count == 1,
        header.image_offset == 12,
        12 <= s.len(),
        spec_read_node(s, 12) == Ok::<ImageNode, TplError>(node),
        node.palette_header is None,
        spec_image_block(s, node.image_header) == Ok::<Seq<u8>, TplError>(data),
    ensures
        spec_read_info(s, 0) == Ok::<TplView, TplError>(
            TplView {
                header,
                nodes: Seq::<ImageNode>::empty().push(node),
                image_datas: Map::<u32, Seq<u8>>::empty().insert(
                    node.image_header.image_data_offset,
                    data,
                ),
                palette_datas: Map::<u32, Seq<u8>>::empty(),
            },
        ),
{
    let nodes = Seq::<ImageNode>::empty().push(node);
    reveal_with_fuel(spec_read_nodes, 2);
    reveal_with_fuel(spec_load_palettes, 2);
    reveal_with_fuel(spec_load_images, 2);
    assert(spec_read_nodes(s, 12, 1) == Ok::<Seq<ImageNode>, TplError>(nodes));
    assert(nodes.len() == 1 && nodes[0] == node);
    assert(spec_load_palettes(s, nodes, 1) == Ok::<Map<u32, Seq<u8>>, TplError>(Map::empty()));
    assert(spec_load_images(s, nodes, 1) == Ok::<Map<u32, Seq<u8>>, TplError>(
        Map::<u32, Seq<u8>>::empty().insert(node.image_header.image_data_offset, data),
    ));
}

/// Parts written one after the other lie one after the other.
proof fn lemma_parts(a: Seq<u8>, b: Seq<u8>, c: Seq<u8>, pad: Seq<u8>, d: Seq<u8>)
    ensures
        (a + b + c + pad + d).len() == a.len() + b.len() + c.len() + pad.len() + d.len(),
        (a + b + c + pad + d).subrange(0, a.len() as int) == a,
        (a + b + c + pad + d).subrange(a.len() as int, (a.len() + b.len()) as int) == b,
        (a + b + c + pad + d).subrange(
            (a.len() + b.len()) as int,
            (a.len() + b.len() + c.len()) as int,
        ) == c,
        (a + b + c + pad + d).subrange(
            (a.len() + b.len() + c.len() + pad.len()) as int,
            (a.len() + b.len() + c.len() + pad.len() + d.len()) as int,
        ) == d,
{
    let s = a + b + c + pad + d;
    assert(s.subrange(0, a.len() as int) =~= a);
    assert(s.subrange(a.len() as int, (a.len() + b.len()) as int) =~= b);
    assert(s.subrange((a.len() + b.len()) as int, (a.len() + b.len() + c.len()) as int) =~= c);
    assert(s.subrange(
        (a.len() + b.len() + c.len() + pad.len()) as int,
        (a.len() + b.len() + c.len() + pad.len() + d.len()) as int,
    ) =~= d);
}

/// A container built from one image is read back from the bytes that the
/// writer makes of it: same header, same image, same raw data.
pub proof fn lemma_single_image_round_trip(
    width: u16,
    height: u16,
    format: TextureFormat,
    filter: FilterMode,
    wrap: WrapMode,
    data: Seq<u8>,
)
    requires
        data.len() == spec_image_size(format, width as int, height as int),
        data.len() <= u32::MAX,
    ensures
        spec_read_info(spec_written(single_image(width, height, format, filter, wrap, data), 0), 0)
            == Ok::<TplView, TplError>(single_image(width, height, format, filter, wrap, data)),
{
    let t = single_image(width, height, format, filter, wrap, data);
    let node = t.nodes[0];
    let s = spec_written(t, 0);
    let fh = file_header_bytes(t.header);
    let ob = image_offset_bytes(node.offset);
    let ih = image_header_bytes(node.image_header);
    assert(t.nodes.len() == 1);
    assert(t.palette_datas.is_empty()) by {
        assert(t.palette_datas.dom() =~= Set::<u32>::empty());
    }
    lemma_one_image_written(t, 64, data);
    lemma_one_image_head(t);
    assert(fh.len() + ob.len() + ih.len() == 56 && fh.len() == 12 && ob.len() == 8) by {
        lemma_record_lens(
            t.header,
            node.offset,
            PaletteHeader {
                entry_count: 0,
                unpacked: 0,
                padding: 0,
                palette_format: PaletteFormat::IA8,
                palette_data_offset: 0,
            },
            node.image_header,
        );
    }
    assert(zeros(8).len() == 8);
    lemma_parts(fh, ob, ih, zeros(8), data);
    lemma_one_image_headers_read_back(s, t.header, node);
    assert(spec_image_block(s, node.image_header) == Ok::<Seq<u8>, TplError>(data));
    lemma_one_image_read(s, t.header, node, data);
    assert(Seq::<ImageNode>::empty().push(node) =~= t.nodes);
}

} // verus!
