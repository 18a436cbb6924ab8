//! The tile geometry of the palette-indexed texture formats.
//!
//! An indexed texture is stored tile by tile, the tiles in raster order, and
//! inside a tile row by row. One row of one tile is the unit in which the
//! source is consumed: the rows follow each other without gaps, so a row is
//! named by its number in the stream.

use vstd::arithmetic::div_mod::{lemma_fundamental_div_mod, lemma_fundamental_div_mod_converse};
use vstd::arithmetic::mul::lemma_mul_is_distributive_add_other_way;
use vstd::prelude::*;

verus! {

/// The texture formats whose pixels are indices into a palette.
#[derive(Debug, Clone, Copy, PartialEq, Eq, Structural)]
pub enum IndexedFormat {
    /// 4-bit indices, two in a byte, in tiles of 8 by 8 pixels.
    C4,
    /// 8-bit indices in tiles of 8 by 4 pixels.
    C8,
    /// 14-bit indices in big-endian 16-bit words, in tiles of 4 by 4 pixels.
    C14X2,
}

impl IndexedFormat {
    /// Width of a tile in pixels.
    pub open spec fn tile_width(self) -> int {
        match self {
            IndexedFormat::C4 => 8,
            IndexedFormat::C8 => 8,
            IndexedFormat::C14X2 => 4,
        }
    }

    /// Height of a tile in pixels.
    pub open spec fn tile_height(self) -> int {
        match self {
            IndexedFormat::C4 => 8,
            IndexedFormat::C8 => 4,
            IndexedFormat::C14X2 => 4,
        }
    }

    /// Bytes that one row of a tile takes in the source.
    pub open spec fn row_bytes(self) -> int {
        match self {
            IndexedFormat::C4 => 4,
            IndexedFormat::C8 => 8,
            IndexedFormat::C14X2 => 8,
        }
    }

    /// Width of a tile in pixels.
    pub fn tile_w(self) -> (r: usize)
        ensures
            r == self.tile_width(),
    {
        match self {
            IndexedFormat::C4 => 8,
            IndexedFormat::C8 => 8,
            IndexedFormat::C14X2 => 4,
        }
    }

    /// Height of a tile in pixels.
    pub fn tile_h(self) -> (r: usize)
        ensures
            r == self.tile_height(),
    {
        match self {
            IndexedFormat::C4 => 8,
            IndexedFormat::C8 => 4,
            IndexedFormat::C14X2 => 4,
        }
    }

    /// Bytes that one row of a tile takes in the source.
    pub fn row_len(self) -> (r: usize)
        ensures
            r == self.row_bytes(),
    {
        match self {
            IndexedFormat::C4 => 4,
            IndexedFormat::C8 => 8,
            IndexedFormat::C14X2 => 8,
        }
    }
}

/// Number of tiles that cover `width` pixels: the width divided by the tile
/// width, rounded up.
pub open spec fn tiles_across(kind: IndexedFormat, width: int) -> int {
    (width + kind.tile_width() - 1) / kind.tile_width()
}

/// Number of tiles that cover `height` pixels.
pub open spec fn tiles_down(kind: IndexedFormat, height: int) -> int {
    (height + kind.tile_height() - 1) / kind.tile_height()
}

/// Bytes of source that an image of `width` by `height` pixels takes: 32 for
/// each tile, whatever the format.
pub open spec fn indexed_source_len(kind: IndexedFormat, width: int, height: int) -> int {
    tiles_across(kind, width) * tiles_down(kind, height) * 32
}

/// Number of the row, in the stream of tile rows, that holds pixel `(px, py)`.
pub open spec fn source_row(kind: IndexedFormat, width: int, px: int, py: int) -> int {
    kind.tile_height() * ((py / kind.tile_height()) * tiles_across(kind, width) + px
        / kind.tile_width()) + py % kind.tile_height()
}

/// The palette index of the pixel in column `col` of the tile row that starts
/// at byte `at` of the source.
pub open spec fn row_index(kind: IndexedFormat, src: Seq<u8>, at: int, col: int) -> int {
    match kind {
        IndexedFormat::C4 => {
            let b = src[at + col / 2] as int;
            if col % 2 == 0 {
                b / 16
            } else {
                b % 16
            }
        },
        IndexedFormat::C8 => src[at + col] as int,
        IndexedFormat::C14X2 => (src[at + 2 * col] as int % 64) * 256 + src[at + 2 * col + 1] as int,
    }
}

/// The palette index of pixel `(px, py)` of an image `width` pixels wide.
pub open spec fn palette_index(kind: IndexedFormat, src: Seq<u8>, width: int, px: int, py: int) -> int {
    row_index(kind, src, kind.row_bytes() * source_row(kind, width, px, py), px % kind.tile_width())
}

/// A pixel's number in raster order determines its coordinates.
pub proof fn lemma_pixel_coords(width: int, height: int, p: int)
    requires
        0 <= p < width * height,
        0 < width,
    ensures
        0 <= p % width < width,
        0 <= p / width < height,
        p == (p / width) * width + p % width,
{
    lemma_fundamental_div_mod(p, width);
    assert((p / width) * width == width * (p / width)) by (nonlinear_arith);
    let q = p / width;
    let r = p % width;
    assert(0 <= q < height) by (nonlinear_arith)
        requires
            p == width * q + r,
            0 <= r < width,
            0 <= p < width * height,
    ;
}

/// Coordinates determine a pixel's number in raster order.
pub proof fn lemma_raster_number(width: int, px: int, py: int)
    requires
        0 <= px < width,
        0 <= py,
    ensures
        (py * width + px) / width == py,
        (py * width + px) % width == px,
        py * width + px >= 0,
{
    assert(py * width == width * py) by (nonlinear_arith);
    lemma_fundamental_div_mod_converse(py * width + px, width, py, px);
    assert(py * width >= 0) by (nonlinear_arith)
        requires
            py >= 0,
            width > 0,
    ;
}

/// A coordinate inside the image falls into one of the tiles that cover it.
pub proof fn lemma_tile_of_pixel(kind: IndexedFormat, width: int, height: int, px: int, py: int)
    requires
        0 <= px < width,
        0 <= py < height,
    ensures
        0 <= px / kind.tile_width() < tiles_across(kind, width),
        0 <= py / kind.tile_height() < tiles_down(kind, height),
        0 <= py % kind.tile_height() < kind.tile_height(),
        0 <= px % kind.tile_width() < kind.tile_width(),
{
    match kind {
        IndexedFormat::C4 => {
            assert(px / 8 < (width + 7) / 8 && py / 8 < (height + 7) / 8);
        },
        IndexedFormat::C8 => {
            assert(px / 8 < (width + 7) / 8 && py / 4 < (height + 3) / 4);
        },
        IndexedFormat::C14X2 => {
            assert(px / 4 < (width + 3) / 4 && py / 4 < (height + 3) / 4);
        },
    }
}

/// A pixel lies in tile row `iy` of the tile in column `tx` of tile line `ty`
/// exactly if its source row has that row's number.
pub proof fn lemma_source_row_names_tile_row(
    kind: IndexedFormat,
    width: int,
    px: int,
    py: int,
    ty: int,
    tx: int,
    iy: int,
)
    requires
        0 <= px < width,
        0 <= py,
        0 <= ty,
        0 <= tx < tiles_across(kind, width),
        0 <= iy < kind.tile_height(),
    ensures
        source_row(kind, width, px, py) == kind.tile_height() * (ty * tiles_across(kind, width)
            + tx) + iy <==> (py / kind.tile_height() == ty && px / kind.tile_width() == tx && py
            % kind.tile_height() == iy),
{
    let t = tiles_across(kind, width);
    let a = py / kind.tile_height();
    let b = px / kind.tile_width();
    let c = py % kind.tile_height();
    lemma_tile_of_pixel(kind, width, py + 1, px, py);
    if source_row(kind, width, px, py) == kind.tile_height() * (ty * t + tx) + iy {
        assert(a * t + b == ty * t + tx && c == iy);
        assert(a * t == t * a && ty * t == t * ty) by (nonlinear_arith);
        lemma_fundamental_div_mod_converse(a * t + b, t, a, b);
        lemma_fundamental_div_mod_converse(ty * t + tx, t, ty, tx);
    }
}

/// The tile row that holds a pixel of the image lies inside the source.
pub proof fn lemma_source_row_in_source(kind: IndexedFormat, width: int, height: int, px: int, py: int)
    requires
        0 <= px < width,
        0 <= py < height,
    ensures
        0 <= source_row(kind, width, px, py),
        kind.row_bytes() * source_row(kind, width, px, py) + kind.row_bytes() <= indexed_source_len(
            kind,
            width,
            height,
        ),
{
    let t = tiles_across(kind, width);
    let d = tiles_down(kind, height);
    let a = py / kind.tile_height();
    let b = px / kind.tile_width();
    lemma_tile_of_pixel(kind, width, height, px, py);
    assert(0 <= a * t + b <= t * d - 1) by (nonlinear_arith)
        requires
            0 <= b <= t - 1,
            0 <= a <= d - 1,
    ;
}

/// The tile rows of one line of tiles follow those of the line before.
pub proof fn lemma_next_tile_line(ty: int, t: int)
    ensures
        ty * t + t == (ty + 1) * t,
{
    lemma_mul_is_distributive_add_other_way(t, ty, 1);
}

} // verus!
