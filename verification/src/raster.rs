//! RGBA8888 images in memory.

use vstd::prelude::*;

verus! {

/// An image of `width` by `height` pixels, four bytes a pixel in the order
/// red, green, blue, alpha, the pixels in raster order. The buffer holds at
/// least the image.
#[derive(Debug, PartialEq, Eq)]
pub struct RgbaImage {
    width: u32,
    height: u32,
    data: Vec<u8>,
}

impl RgbaImage {
    #[verifier::type_invariant]
    spec fn holds_image(self) -> bool {
        4 * (self.width * self.height) <= self.data@.len()
    }

    /// Width in pixels.
    pub closed spec fn spec_width(&self) -> u32 {
        self.width
    }

    /// Height in pixels.
    pub closed spec fn spec_height(&self) -> u32 {
        self.height
    }

    /// The bytes of the buffer.
    pub closed spec fn spec_raw(&self) -> Seq<u8> {
        self.data@
    }

    /// An image over `buf`, or `None` where `buf` is shorter than
    /// `4 * width * height` bytes.
    pub fn from_raw(width: u32, height: u32, buf: Vec<u8>) -> (r: Option<RgbaImage>)
        ensures
            r is Some <==> 4 * (width * height) <= buf@.len(),
            r matches Some(image) ==> image.spec_width() == width && image.spec_height() == height
                && image.spec_raw() == buf@,
    {
        assert(width * height <= 0xFFFF_FFFF * 0xFFFF_FFFF) by (nonlinear_arith)
            requires
                width <= 0xFFFF_FFFF,
                height <= 0xFFFF_FFFF,
        ;
        let pixels: u64 = width as u64 * height as u64;
        let have = buf.len();
        match pixels.checked_mul(4) {
            Some(need) => {
                if need <= have as u64 {
                    Some(RgbaImage { width, height, data: buf })
                } else {
                    None
                }
            },
            None => None,
        }
    }

    /// Width in pixels.
    pub fn width(&self) -> (r: u32)
        ensures
            r == self.spec_width(),
    {
        self.width
    }

    /// Height in pixels.
    pub fn height(&self) -> (r: u32)
        ensures
            r == self.spec_height(),
    {
        self.height
    }

    /// The buffer, which holds at least the image.
    pub fn as_raw(&self) -> (r: &Vec<u8>)
        ensures
            r@ == self.spec_raw(),
            4 * (self.spec_width() * self.spec_height()) <= r@.len(),
    {
        proof {
            use_type_invariant(self);
        }
        &self.data
    }

    /// The buffer, which holds at least the image.
    pub fn into_raw(self) -> (r: Vec<u8>)
        ensures
            r@ == self.spec_raw(),
            4 * (self.spec_width() * self.spec_height()) <= r@.len(),
    {
        proof {
            use_type_invariant(&self);
        }
        self.data
    }
}

} // verus!
