//! Reading, writing and decoding of TPL texture containers.
//!
//! A container holds a table of images. Each image has a header, raw data in
//! one of the texture formats, and for the palette-indexed formats a palette.
//!
//! - `types`: the entities of a container; `wire`: their byte layout;
//!   `stream`: big-endian integers and the cursor that reads them.
//! - `reader`: from bytes to a container; `conversion`: from a container to
//!   bytes, from one image to a container, and from an image of a container
//!   to pixels.
//! - `tiling` and `decoding`: the palette-indexed formats; `codec`: the
//!   other formats, through the `gctex` crate.
//! - `laws`: what holds between these.

pub mod align;
pub mod codec;
pub mod conversion;
pub mod decoding;
pub mod laws;
pub mod ordered;
pub mod raster;
pub mod reader;
pub mod stream;
pub mod tiling;
pub mod types;
pub mod wire;
