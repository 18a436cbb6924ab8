//! The block geometry of the texture formats, and the calls into the `gctex`
//! crate, which encodes and decodes the formats that are not indexed.
//!
//! An image is stored in whole blocks. `gctex` counts in 32 bits, so it is
//! only handed images whose padded size it can hold. What it encodes is a
//! function of the image alone. What it decodes is not stated here beyond
//! its length: the decoder is chosen by the machine.

use crate::types::{ImageHeader, TextureFormat, TplError};
use vstd::slice::{slice_subrange, slice_to_vec};
use vstd::prelude::*;

verus! {

impl TextureFormat {
    /// Width of a block in pixels.
    pub open spec fn block_width(self) -> int {
        match self {
            TextureFormat::I4 => 8,
            TextureFormat::I8 => 8,
            TextureFormat::IA4 => 8,
            TextureFormat::IA8 => 4,
            TextureFormat::RGB565 => 4,
            TextureFormat::RGB5A3 => 4,
            TextureFormat::RGBA8 => 4,
            TextureFormat::C4 => 8,
            TextureFormat::C8 => 8,
            TextureFormat::C14X2 => 4,
            TextureFormat::CMPR => 8,
        }
    }

    /// Height of a block in pixels.
    pub open spec fn block_height(self) -> int {
        match self {
            TextureFormat::I4 => 8,
            TextureFormat::C4 => 8,
            TextureFormat::CMPR => 8,
            _ => 4,
        }
    }

    /// Bytes that a block takes.
    pub open spec fn block_bytes(self) -> int {
        match self {
            TextureFormat::RGBA8 => 64,
            _ => 32,
        }
    }

    /// Width of a block in pixels.
    pub fn block_w(self) -> (r: u64)
        ensures
            r == self.block_width(),
    {
        match self {
            TextureFormat::I4 => 8,
            TextureFormat::I8 => 8,
            TextureFormat::IA4 => 8,
            TextureFormat::IA8 => 4,
            TextureFormat::RGB565 => 4,
            TextureFormat::RGB5A3 => 4,
            TextureFormat::RGBA8 => 4,
            TextureFormat::C4 => 8,
            TextureFormat::C8 => 8,
            TextureFormat::C14X2 => 4,
            TextureFormat::CMPR => 8,
        }
    }

    /// Height of a block in pixels.
    pub fn block_h(self) -> (r: u64)
        ensures
            r == self.block_height(),
    {
        match self {
            TextureFormat::I4 => 8,
            TextureFormat::C4 => 8,
            TextureFormat::CMPR => 8,
            _ => 4,
        }
    }

    /// Bytes that a block takes.
    pub fn block_len(self) -> (r: u64)
        ensures
            r == self.block_bytes(),
    {
        match self {
            TextureFormat::RGBA8 => 64,
            _ => 32,
        }
    }
}

/// Number of blocks that cover `width` pixels.
pub open spec fn blocks_across(format: TextureFormat, width: int) -> int {
    (width + format.block_width() - 1) / format.block_width()
}

/// Number of blocks that cover `height` pixels.
pub open spec fn blocks_down(format: TextureFormat, height: int) -> int {
    (height + format.block_height() - 1) / format.block_height()
}

/// Number of blocks that cover an image.
pub open spec fn block_count(format: TextureFormat, width: int, height: int) -> int {
    blocks_across(format, width) * blocks_down(format, height)
}

/// Bytes that the raw data of an image takes.
pub open spec fn spec_image_size(format: TextureFormat, width: int, height: int) -> int {
    block_count(format, width, height) * format.block_bytes()
}

/// Bytes of an RGBA8888 image of the blocks that cover an image.
pub open spec fn padded_rgba_len(format: TextureFormat, width: int, height: int) -> int {
    block_count(format, width, height) * (4 * format.block_width() * format.block_height())
}

/// The raw data that `gctex` makes of an RGBA8888 image in one of its
/// formats, given by the format's number.
pub uninterp spec fn codec_encoded(format: u32, rgba: Seq<u8>, width: u32, height: u32) -> Seq<u8>;

/// Calls `gctex::compute_image_size`, which counts the blocks that cover the
/// image and multiplies by the bytes of a block, all in 32 bits. `format` is
/// the number of a format, which `gctex::TextureFormat::from_u32` takes to
/// the variant of that number.
#[verifier::external_body]
fn codec_image_size(format: u32, width: u32, height: u32) -> (r: u32)
    requires
        TextureFormat::spec_from_u32(format) is Some,
        width <= 0xFFFF,
        height <= 0xFFFF,
        spec_image_size(TextureFormat::spec_from_u32(format)->0, width as int, height as int)
            <= u32::MAX,
    ensures
        r == spec_image_size(TextureFormat::spec_from_u32(format)->0, width as int, height as int),
{
    gctex::compute_image_size(gctex::TextureFormat::from_u32(format).unwrap(), width, height)
}

/// Calls `gctex::encode` on an RGBA8888 image. It returns a buffer of
/// `compute_image_size` bytes. It panics on the indexed formats, on a source
/// shorter than the image, and, for CMPR, on an image without pixels; its
/// sizes are 32-bit products as large as the padded image.
#[verifier::external_body]
fn codec_encode(format: u32, src: &[u8], width: u32, height: u32) -> (r: Vec<u8>)
    requires
        TextureFormat::spec_from_u32(format) is Some,
        !TextureFormat::spec_from_u32(format)->0.spec_is_indexed(),
        width <= 0xFFFF,
        height <= 0xFFFF,
        padded_rgba_len(TextureFormat::spec_from_u32(format)->0, width as int, height as int)
            <= u32::MAX,
        4 * (width * height) <= src@.len(),
        TextureFormat::spec_from_u32(format)->0 == TextureFormat::CMPR ==> width > 0 && height > 0,
    ensures
        r@ == codec_encoded(format, src@, width, height),
        r@.len() == spec_image_size(
            TextureFormat::spec_from_u32(format)->0,
            width as int,
            height as int,
        ),
{
    gctex::encode(gctex::TextureFormat::from_u32(format).unwrap(), src, width, height)
}

/// Calls `gctex::decode` without a palette. It returns a buffer of
/// `4 * width * height` bytes; which bytes is left open, since `gctex` picks
/// one of several decoders by the machine it runs on.
///
/// It panics on a source shorter than `compute_image_size` or longer than
/// 32 bits can count, and reads a palette without bounds for the indexed
/// formats; its sizes are 32-bit products as large as the padded image. It
/// takes its buffers as arrays of 16-bit and 32-bit words: so the image has
/// to have a pixel, for an empty buffer lies nowhere, and the source is
/// handed over as a whole vector, which starts where an allocation starts.
#[verifier::external_body]
fn codec_decode(src: &Vec<u8>, width: u32, height: u32, format: u32) -> (r: Vec<u8>)
    requires
        TextureFormat::spec_from_u32(format) is Some,
        !TextureFormat::spec_from_u32(format)->0.spec_is_indexed(),
        0 < width <= 0xFFFF,
        0 < height <= 0xFFFF,
        padded_rgba_len(TextureFormat::spec_from_u32(format)->0, width as int, height as int)
            <= u32::MAX,
        src@.len() == spec_image_size(
            TextureFormat::spec_from_u32(format)->0,
            width as int,
            height as int,
        ),
    ensures
        r@.len() == 4 * (width * height),
{
    gctex::decode(src, width, height, gctex::TextureFormat::from_u32(format).unwrap(), &[], 0)
}

/// Whether `gctex` has a rule for an image of this format and size: the
/// format is not indexed, and the padded image can be counted in 32 bits.
pub open spec fn codec_takes(format: TextureFormat, width: int, height: int) -> bool {
    !format.spec_is_indexed() && padded_rgba_len(format, width, height) <= u32::MAX
}

/// The raw data of an image is never longer than its padded RGBA8888 form,
/// which in turn holds the image itself.
pub proof fn lemma_padded_holds_image(format: TextureFormat, width: int, height: int)
    requires
        0 <= width,
        0 <= height,
    ensures
        0 <= spec_image_size(format, width, height) <= padded_rgba_len(format, width, height),
        4 * (width * height) <= padded_rgba_len(format, width, height),
        0 <= blocks_across(format, width) <= width + 1,
        0 <= blocks_down(format, height) <= height + 1,
        width > 0 && height > 0 ==> spec_image_size(format, width, height) > 0,
{
    let a = blocks_across(format, width);
    let d = blocks_down(format, height);
    let bw = format.block_width();
    let bh = format.block_height();
    let bb = format.block_bytes();
    assert(0 <= a <= width + 1 && width <= a * bw && (width > 0 ==> a > 0)) by {
        if bw == 8 {
            assert(width <= ((width + 7) / 8) * 8);
        } else {
            assert(width <= ((width + 3) / 4) * 4);
        }
    }
    assert(0 <= d <= height + 1 && height <= d * bh && (height > 0 ==> d > 0)) by {
        if bh == 8 {
            assert(height <= ((height + 7) / 8) * 8);
        } else {
            assert(height <= ((height + 3) / 4) * 4);
        }
    }
    assert(32 <= bb <= 4 * bw * bh && bw > 0 && bh > 0);
    assert(0 <= (a * d) * bb <= (a * d) * (4 * bw * bh) && 4 * (width * height) <= (a * d) * (4
        * bw * bh) && (a > 0 && d > 0 ==> (a * d) * bb > 0)) by (nonlinear_arith)
        requires
            0 <= a,
            0 <= d,
            0 < bb <= 4 * bw * bh,
            0 <= width <= a * bw,
            0 <= height <= d * bh,
            bw > 0,
            bh > 0,
    ;
}

/// Bytes of the padded RGBA8888 form of an image.
fn padded_len(format: TextureFormat, width: u16, height: u16) -> (r: u64)
    ensures
        r == padded_rgba_len(format, width as int, height as int),
        spec_image_size(format, width as int, height as int) <= r,
{
    let bw = format.block_w();
    let bh = format.block_h();
    let across = (width as u64 + bw - 1) / bw;
    let down = (height as u64 + bh - 1) / bh;
    assert(across <= 0x4000 && down <= 0x4000);
    assert(across * down <= 0x1000_0000) by (nonlinear_arith)
        requires
            across <= 0x4000,
            down <= 0x4000,
    ;
    let blocks = across * down;
    assert(blocks * (4 * bw * bh) <= 0x10_0000_0000) by (nonlinear_arith)
        requires
            blocks <= 0x1000_0000,
            4 * bw * bh <= 256,
    ;
    proof {
        lemma_padded_holds_image(format, width as int, height as int);
    }
    blocks * (4 * bw * bh)
}

/// The error of an attempt to encode an RGBA8888 image of `rgba_len` bytes,
/// if it fails: `UnsupportedFormat` where `gctex` has no rule for the image
/// (an indexed format, an image too large to count in 32 bits, CMPR without
/// a pixel), else `BufferTooSmall` where the bytes are fewer than the image.
pub open spec fn encode_direct_error(
    format: TextureFormat,
    rgba_len: int,
    width: int,
    height: int,
) -> Option<TplError> {
    if !codec_takes(format, width, height) {
        Some(TplError::UnsupportedFormat)
    } else if format == TextureFormat::CMPR && (width == 0 || height == 0) {
        Some(TplError::UnsupportedFormat)
    } else if rgba_len < 4 * (width * height) {
        Some(TplError::BufferTooSmall)
    } else {
        None
    }
}

/// The error of an attempt to decode raw data of `src_len` bytes, if it
/// fails: `UnsupportedFormat` where `gctex` has no rule for the image (an
/// indexed format, an image too large to count in 32 bits), else
/// `BufferTooSmall` where the bytes are fewer than the image's raw data.
pub open spec fn decode_direct_error(
    format: TextureFormat,
    src_len: int,
    width: int,
    height: int,
) -> Option<TplError> {
    if !codec_takes(format, width, height) {
        Some(TplError::UnsupportedFormat)
    } else if src_len < spec_image_size(format, width, height) {
        Some(TplError::BufferTooSmall)
    } else {
        None
    }
}

/// Encodes an RGBA8888 image in one of the formats that are not indexed.
/// The raw data is what `gctex` makes of the image and takes as many bytes
/// as the image's blocks do.
pub fn encode_direct(format: TextureFormat, rgba: &[u8], width: u16, height: u16) -> (r: Result<
    Vec<u8>,
    TplError,
>)
    ensures
        match r {
            Ok(v) => encode_direct_error(format, rgba@.len() as int, width as int, height as int)
                is None && v@ == codec_encoded(format.code(), rgba@, width as u32, height as u32)
                && v@.len() == spec_image_size(format, width as int, height as int),
            Err(e) => encode_direct_error(format, rgba@.len() as int, width as int, height as int)
                == Some(e),
        },
{
    if format.is_indexed() || padded_len(format, width, height) > u32::MAX as u64 {
        return Err(TplError::UnsupportedFormat);
    }
    if format == TextureFormat::CMPR && (width == 0 || height == 0) {
        return Err(TplError::UnsupportedFormat);
    }
    proof {
        lemma_padded_holds_image(format, width as int, height as int);
    }
    let need: u64 = 4 * (width as u64 * height as u64);
    let have = rgba.len();
    if (have as u64) < need {
        return Err(TplError::BufferTooSmall);
    }
    Ok(codec_encode(format.to_u32(), rgba, width as u32, height as u32))
}

/// Decodes the raw data of an image in one of the formats that are not
/// indexed. Only the bytes of the image's blocks are read, from the start of
/// `src`. The result holds four bytes for each pixel, as `gctex` decodes
/// them; an image without pixels is decoded here, to no bytes.
pub fn decode_direct(format: TextureFormat, src: &[u8], width: u16, height: u16) -> (r: Result<
    Vec<u8>,
    TplError,
>)
    ensures
        match r {
            Ok(v) => decode_direct_error(format, src@.len() as int, width as int, height as int)
                is None && v@.len() == 4 * (width * height) && (width == 0 || height == 0 ==> v@
                == Seq::<u8>::empty()),
            Err(e) => decode_direct_error(format, src@.len() as int, width as int, height as int)
                == Some(e),
        },
{
    if format.is_indexed() || padded_len(format, width, height) > u32::MAX as u64 {
        return Err(TplError::UnsupportedFormat);
    }
    proof {
        lemma_padded_holds_image(format, width as int, height as int);
    }
    let size = codec_image_size(format.to_u32(), width as u32, height as u32);
    let have = src.len();
    if (have as u64) < size as u64 {
        return Err(TplError::BufferTooSmall);
    }
    if width == 0 || height == 0 {
        assert(width * height == 0) by (nonlinear_arith)
            requires
                width == 0 || height == 0,
        ;
        let none: Vec<u8> = Vec::new();
        assert(none@ =~= Seq::<u8>::empty());
        return Ok(none);
    }
    let block = slice_to_vec(slice_subrange(src, 0, size as usize));
    Ok(codec_decode(&block, width as u32, height as u32, format.to_u32()))
}

impl ImageHeader {
    /// Bytes that the raw data of the image takes: its blocks, counted as
    /// `gctex` counts them.
    pub open spec fn spec_image_size(&self) -> int {
        spec_image_size(self.format, self.width as int, self.height as int)
    }

    /// Bytes that the raw data of the image takes. The number has to fit in
    /// 32 bits; `checked_image_size` tests that.
    pub fn image_size(&self) -> (r: u32)
        requires
            self.spec_image_size() <= u32::MAX,
        ensures
            r == self.spec_image_size(),
    {
        codec_image_size(self.format.to_u32(), self.width as u32, self.height as u32)
    }

    /// Bytes that the raw data of the image takes, or `None` where the
    /// number does not fit in 32 bits.
    pub fn checked_image_size(&self) -> (r: Option<u32>)
        ensures
            match r {
                Some(n) => n == self.spec_image_size(),
                None => self.spec_image_size() > u32::MAX,
            },
    {
        let bw = self.format.block_w();
        let bh = self.format.block_h();
        let across = (self.width as u64 + bw - 1) / bw;
        let down = (self.height as u64 + bh - 1) / bh;
        assert(across * down <= 0x1000_0000) by (nonlinear_arith)
            requires
                across <= 0x4000,
                down <= 0x4000,
        ;
        let blocks = across * down;
        if blocks * self.format.block_len() <= u32::MAX as u64 {
            Some(self.image_size())
        } else {
            None
        }
    }

    /// The image's format as `gctex` numbers it, which is the number it has
    /// in the header.
    pub fn image_format(&self) -> (r: u32)
        ensures
            r == self.format.code(),
    {
        self.format.to_u32()
    }
}

} // verus!
