//! The entities of a TPL container and the numbers they carry on the wire.

use std::collections::BTreeMap;
use vstd::prelude::*;

verus! {

/// What went wrong while reading, building or decoding a container.
#[derive(Debug, Clone, Copy, PartialEq, Eq, Structural)]
pub enum TplError {
    /// The stream ended inside a record, or an offset lies past its end.
    IOError,
    /// An enumeration field holds a number that names no variant, or a value
    /// has no place in a record's field.
    FormatError,
    /// A block of raw data is shorter than its header asks for.
    BufferTooSmall,
    /// The format is known, but there is no rule to decode or encode it.
    UnsupportedFormat,
}

/// How the 16-bit entries of a palette encode a colour.
#[derive(Debug, Clone, Copy, PartialEq, Eq, Structural)]
pub enum PaletteFormat {
    IA8,
    RGB565,
    RGB5A3,
}

impl PaletteFormat {
    /// The number that stands for this format in a palette header.
    pub open spec fn code(self) -> u32 {
        match self {
            PaletteFormat::IA8 => 0,
            PaletteFormat::RGB565 => 1,
            PaletteFormat::RGB5A3 => 2,
        }
    }

    /// The format that `code` stands for, if any.
    pub open spec fn spec_from_u32(code: u32) -> Option<PaletteFormat> {
        if code == 0 {
            Some(PaletteFormat::IA8)
        } else if code == 1 {
            Some(PaletteFormat::RGB565)
        } else if code == 2 {
            Some(PaletteFormat::RGB5A3)
        } else {
            None
        }
    }

    /// The number that stands for this variant on the wire.
    pub fn to_u32(self) -> (r: u32)
        ensures
            r == self.code(),
    {
        match self {
            PaletteFormat::IA8 => 0,
            PaletteFormat::RGB565 => 1,
            PaletteFormat::RGB5A3 => 2,
        }
    }

    /// The variant that `code` stands for, or `None` where it stands for none.
    pub fn from_u32(code: u32) -> (r: Option<PaletteFormat>)
        ensures
            r == Self::spec_from_u32(code),
    {
        if code == 0 {
            Some(PaletteFormat::IA8)
        } else if code == 1 {
            Some(PaletteFormat::RGB565)
        } else if code == 2 {
            Some(PaletteFormat::RGB5A3)
        } else {
            None
        }
    }
}

impl Default for PaletteFormat {
    fn default() -> (r: Self)
        ensures
            r == PaletteFormat::IA8,
    {
        PaletteFormat::IA8
    }
}

/// How texture coordinates outside the image are mapped into it.
#[derive(Debug, Clone, Copy, PartialEq, Eq, Structural)]
pub enum WrapMode {
    Clamp,
    Repeat,
    Mirror,
}

impl WrapMode {
    /// The number that stands for this mode in an image header.
    pub open spec fn code(self) -> u32 {
        match self {
            WrapMode::Clamp => 0,
            WrapMode::Repeat => 1,
            WrapMode::Mirror => 2,
        }
    }

    /// The mode that `code` stands for, if any.
    pub open spec fn spec_from_u32(code: u32) -> Option<WrapMode> {
        if code == 0 {
            Some(WrapMode::Clamp)
        } else if code == 1 {
            Some(WrapMode::Repeat)
        } else if code == 2 {
            Some(WrapMode::Mirror)
        } else {
            None
        }
    }

    /// The number that stands for this variant on the wire.
    pub fn to_u32(self) -> (r: u32)
        ensures
            r == self.code(),
    {
        match self {
            WrapMode::Clamp => 0,
            WrapMode::Repeat => 1,
            WrapMode::Mirror => 2,
        }
    }

    /// The variant that `code` stands for, or `None` where it stands for none.
    pub fn from_u32(code: u32) -> (r: Option<WrapMode>)
        ensures
            r == Self::spec_from_u32(code),
    {
        if code == 0 {
            Some(WrapMode::Clamp)
        } else if code == 1 {
            Some(WrapMode::Repeat)
        } else if code == 2 {
            Some(WrapMode::Mirror)
        } else {
            None
        }
    }
}

impl Default for WrapMode {
    fn default() -> (r: Self)
        ensures
            r == WrapMode::Clamp,
    {
        WrapMode::Clamp
    }
}

/// How a texture is sampled. The mipmap modes are meant for the
/// minification filter only.
#[derive(Debug, Clone, Copy, PartialEq, Eq, Structural)]
pub enum FilterMode {
    Nearest,
    Linear,
    NearestMipmapNearest,
    NearestMipmapLinear,
    LinearMipmapNearest,
    LinearMipmapLinear,
}

impl FilterMode {
    /// The number that stands for this mode in an image header.
    pub open spec fn code(self) -> u32 {
        match self {
            FilterMode::Nearest => 0,
            FilterMode::Linear => 1,
            FilterMode::NearestMipmapNearest => 2,
            FilterMode::NearestMipmapLinear => 3,
            FilterMode::LinearMipmapNearest => 4,
            FilterMode::LinearMipmapLinear => 5,
        }
    }

    /// The mode that `code` stands for, if any.
    pub open spec fn spec_from_u32(code: u32) -> Option<FilterMode> {
        if code == 0 {
            Some(FilterMode::Nearest)
        } else if code == 1 {
            Some(FilterMode::Linear)
        } else if code == 2 {
            Some(FilterMode::NearestMipmapNearest)
        } else if code == 3 {
            Some(FilterMode::NearestMipmapLinear)
        } else if code == 4 {
            Some(FilterMode::LinearMipmapNearest)
        } else if code == 5 {
            Some(FilterMode::LinearMipmapLinear)
        } else {
            None
        }
    }

    /// The number that stands for this variant on the wire.
    pub fn to_u32(self) -> (r: u32)
        ensures
            r == self.code(),
    {
        match self {
            FilterMode::Nearest => 0,
            FilterMode::Linear => 1,
            FilterMode::NearestMipmapNearest => 2,
            FilterMode::NearestMipmapLinear => 3,
            FilterMode::LinearMipmapNearest => 4,
            FilterMode::LinearMipmapLinear => 5,
        }
    }

    /// The variant that `code` stands for, or `None` where it stands for none.
    pub fn from_u32(code: u32) -> (r: Option<FilterMode>)
        ensures
            r == Self::spec_from_u32(code),
    {
        if code == 0 {
            Some(FilterMode::Nearest)
        } else if code == 1 {
            Some(FilterMode::Linear)
        } else if code == 2 {
            Some(FilterMode::NearestMipmapNearest)
        } else if code == 3 {
            Some(FilterMode::NearestMipmapLinear)
        } else if code == 4 {
            Some(FilterMode::LinearMipmapNearest)
        } else if code == 5 {
            Some(FilterMode::LinearMipmapLinear)
        } else {
            None
        }
    }
}

impl Default for FilterMode {
    fn default() -> (r: Self)
        ensures
            r == FilterMode::Linear,
    {
        FilterMode::Linear
    }
}

/// The pixel format of an image's raw data.
#[derive(Debug, Clone, Copy, PartialEq, Eq, Structural)]
pub enum TextureFormat {
    I4,
    I8,
    IA4,
    IA8,
    RGB565,
    RGB5A3,
    RGBA8,
    C4,
    C8,
    C14X2,
    CMPR,
}

impl TextureFormat {
    /// The number that stands for this format in an image header. The
    /// numbers 7 and 11 to 13 stand for nothing.
    pub open spec fn code(self) -> u32 {
        match self {
            TextureFormat::I4 => 0,
            TextureFormat::I8 => 1,
            TextureFormat::IA4 => 2,
            TextureFormat::IA8 => 3,
            TextureFormat::RGB565 => 4,
            TextureFormat::RGB5A3 => 5,
            TextureFormat::RGBA8 => 6,
            TextureFormat::C4 => 8,
            TextureFormat::C8 => 9,
            TextureFormat::C14X2 => 10,
            TextureFormat::CMPR => 14,
        }
    }

    /// The format that `code` stands for, if any.
    pub open spec fn spec_from_u32(code: u32) -> Option<TextureFormat> {
        if code == 0 {
            Some(TextureFormat::I4)
        } else if code == 1 {
            Some(TextureFormat::I8)
        } else if code == 2 {
            Some(TextureFormat::IA4)
        } else if code == 3 {
            Some(TextureFormat::IA8)
        } else if code == 4 {
            Some(TextureFormat::RGB565)
        } else if code == 5 {
            Some(TextureFormat::RGB5A3)
        } else if code == 6 {
            Some(TextureFormat::RGBA8)
        } else if code == 8 {
            Some(TextureFormat::C4)
        } else if code == 9 {
            Some(TextureFormat::C8)
        } else if code == 10 {
            Some(TextureFormat::C14X2)
        } else if code == 14 {
            Some(TextureFormat::CMPR)
        } else {
            None
        }
    }

    /// Whether the pixels of this format are indices into a palette.
    pub open spec fn spec_is_indexed(self) -> bool {
        self == TextureFormat::C4 || self == TextureFormat::C8 || self == TextureFormat::C14X2
    }

    /// The number that stands for this variant on the wire.
    pub fn to_u32(self) -> (r: u32)
        ensures
            r == self.code(),
    {
        match self {
            TextureFormat::I4 => 0,
            TextureFormat::I8 => 1,
            TextureFormat::IA4 => 2,
            TextureFormat::IA8 => 3,
            TextureFormat::RGB565 => 4,
            TextureFormat::RGB5A3 => 5,
            TextureFormat::RGBA8 => 6,
            TextureFormat::C4 => 8,
            TextureFormat::C8 => 9,
            TextureFormat::C14X2 => 10,
            TextureFormat::CMPR => 14,
        }
    }

    /// The variant that `code` stands for, or `None` where it stands for none.
    pub fn from_u32(code: u32) -> (r: Option<TextureFormat>)
        ensures
            r == Self::spec_from_u32(code),
    {
        if code == 0 {
            Some(TextureFormat::I4)
        } else if code == 1 {
            Some(TextureFormat::I8)
        } else if code == 2 {
            Some(TextureFormat::IA4)
        } else if code == 3 {
            Some(TextureFormat::IA8)
        } else if code == 4 {
            Some(TextureFormat::RGB565)
        } else if code == 5 {
            Some(TextureFormat::RGB5A3)
        } else if code == 6 {
            Some(TextureFormat::RGBA8)
        } else if code == 8 {
            Some(TextureFormat::C4)
        } else if code == 9 {
            Some(TextureFormat::C8)
        } else if code == 10 {
            Some(TextureFormat::C14X2)
        } else if code == 14 {
            Some(TextureFormat::CMPR)
        } else {
            None
        }
    }

    /// Whether the pixels of this format are indices into a palette.
    pub fn is_indexed(self) -> (r: bool)
        ensures
            r == self.spec_is_indexed(),
    {
        match self {
            TextureFormat::C4 => true,
            TextureFormat::C8 => true,
            TextureFormat::C14X2 => true,
            _ => false,
        }
    }
}

impl Default for TextureFormat {
    fn default() -> (r: Self)
        ensures
            r == TextureFormat::RGB5A3,
    {
        TextureFormat::RGB5A3
    }
}

/// Every variant of an enumeration is found again from its number.
pub proof fn lemma_codes_name_variants(p: PaletteFormat, w: WrapMode, f: FilterMode, t: TextureFormat)
    ensures
        PaletteFormat::spec_from_u32(p.code()) == Some(p),
        WrapMode::spec_from_u32(w.code()) == Some(w),
        FilterMode::spec_from_u32(f.code()) == Some(f),
        TextureFormat::spec_from_u32(t.code()) == Some(t),
{
}

/// The preamble of a container: 12 bytes.
#[derive(Debug, Clone, Copy, PartialEq, Eq, Structural)]
pub struct FileHeader {
    pub identifier: u32,
    pub image_count: u32,
    /// Where the table of image offsets starts.
    pub image_offset: u32,
}

impl Default for FileHeader {
    fn default() -> (r: Self)
        ensures
            r == (FileHeader { identifier: 0, image_count: 0, image_offset: 0 }),
    {
        FileHeader { identifier: 0, image_count: 0, image_offset: 0 }
    }
}

/// One entry of the table of image offsets: 8 bytes.
#[derive(Debug, Clone, Copy, PartialEq, Eq, Structural)]
pub struct ImageOffset {
    /// Where the image header of this image starts.
    pub image_header_offset: u32,
    /// Where the palette header of this image starts; 0 if it has none.
    pub palette_header_offset: u32,
}

impl ImageOffset {
    /// Whether the entry names a palette header: its palette offset is not 0.
    pub open spec fn spec_has_palette(&self) -> bool {
        self.palette_header_offset > 0
    }

    /// Whether the image has a palette.
    pub fn has_palette(&self) -> (r: bool)
        ensures
            r == self.spec_has_palette(),
    {
        self.palette_header_offset > 0
    }
}

impl Default for ImageOffset {
    fn default() -> (r: Self)
        ensures
            r == (ImageOffset { image_header_offset: 0, palette_header_offset: 0 }),
    {
        ImageOffset { image_header_offset: 0, palette_header_offset: 0 }
    }
}

/// The metadata of a palette: 12 bytes.
#[derive(Debug, Clone, Copy, PartialEq, Eq, Structural)]
pub struct PaletteHeader {
    /// Number of 16-bit entries in the palette.
    pub entry_count: u16,
    pub unpacked: u8,
    pub padding: u8,
    pub palette_format: PaletteFormat,
    /// Where the entries start.
    pub palette_data_offset: u32,
}

impl Default for PaletteHeader {
    fn default() -> (r: Self)
        ensures
            r == (PaletteHeader {
                entry_count: 0,
                unpacked: 0,
                padding: 0,
                palette_format: PaletteFormat::IA8,
                palette_data_offset: 0,
            }),
    {
        PaletteHeader {
            entry_count: 0,
            unpacked: 0,
            padding: 0,
            palette_format: PaletteFormat::IA8,
            palette_data_offset: 0,
        }
    }
}

/// The metadata of an image: 36 bytes.
#[derive(Debug, Clone, Copy, PartialEq, Eq, Structural)]
pub struct ImageHeader {
    pub height: u16,
    pub width: u16,
    pub format: TextureFormat,
    /// Where the raw data of the image starts.
    pub image_data_offset: u32,
    pub wrap_s: WrapMode,
    pub wrap_t: WrapMode,
    pub min_filter: FilterMode,
    pub mag_filter: FilterMode,
    /// The level-of-detail bias, an IEEE 754 single, kept as its 32 bits.
    pub lod_bias: u32,
    pub edge_lod_enable: u8,
    pub min_lod: u8,
    pub max_lod: u8,
    pub unpacked: u8,
}

impl ImageHeader {
    /// The header that `default` gives.
    pub open spec fn spec_default() -> ImageHeader {
        ImageHeader {
            height: 0,
            width: 0,
            format: TextureFormat::RGB5A3,
            image_data_offset: 0,
            wrap_s: WrapMode::Clamp,
            wrap_t: WrapMode::Clamp,
            min_filter: FilterMode::Linear,
            mag_filter: FilterMode::Linear,
            lod_bias: 0,
            edge_lod_enable: 0,
            min_lod: 0,
            max_lod: 0,
            unpacked: 0,
        }
    }
}

impl Default for ImageHeader {
    fn default() -> (r: Self)
        ensures
            r == ImageHeader::spec_default(),
    {
        ImageHeader {
            height: 0,
            width: 0,
            format: TextureFormat::RGB5A3,
            image_data_offset: 0,
            wrap_s: WrapMode::Clamp,
            wrap_t: WrapMode::Clamp,
            min_filter: FilterMode::Linear,
            mag_filter: FilterMode::Linear,
            lod_bias: 0,
            edge_lod_enable: 0,
            min_lod: 0,
            max_lod: 0,
            unpacked: 0,
        }
    }
}

/// One image of a container: its entry in the table of offsets with the
/// headers that the entry points to.
#[derive(Debug, Clone, Copy, PartialEq, Eq)]
pub struct ImageNode {
    pub offset: ImageOffset,
    pub image_header: ImageHeader,
    pub palette_header: Option<PaletteHeader>,
}

impl Default for ImageNode {
    fn default() -> (r: Self)
        ensures
            r == (ImageNode {
                offset: ImageOffset { image_header_offset: 0, palette_header_offset: 0 },
                image_header: ImageHeader::spec_default(),
                palette_header: None,
            }),
    {
        ImageNode {
            offset: ImageOffset::default(),
            image_header: ImageHeader::default(),
            palette_header: None,
        }
    }
}

/// A container: its preamble, its images in the order of the table of
/// offsets, and the raw data of images and palettes, each block under the
/// offset at which it lies in the file. Two images that name one offset
/// share the block stored there.
#[derive(Debug, Clone, PartialEq, Eq)]
pub struct TPL {
    pub header: FileHeader,
    pub nodes: Vec<ImageNode>,
    pub image_datas: BTreeMap<u32, Vec<u8>>,
    pub palette_datas: BTreeMap<u32, Vec<u8>>,
}

/// A container as plain values.
pub struct TplView {
    pub header: FileHeader,
    pub nodes: Seq<ImageNode>,
    pub image_datas: Map<u32, Seq<u8>>,
    pub palette_datas: Map<u32, Seq<u8>>,
}

/// The blocks of a map of raw data as sequences of bytes.
pub open spec fn blocks_of(m: BTreeMap<u32, Vec<u8>>) -> Map<u32, Seq<u8>> {
    m@.map_values(|v: Vec<u8>| v@)
}

impl View for TPL {
    type V = TplView;

    open spec fn view(&self) -> TplView {
        TplView {
            header: self.header,
            nodes: self.nodes@,
            image_datas: blocks_of(self.image_datas),
            palette_datas: blocks_of(self.palette_datas),
        }
    }
}

impl TPL {
    /// The headers of image `index`.
    pub fn get_node_info(&self, index: usize) -> (r: (ImageHeader, Option<PaletteHeader>))
        requires
            index < self.nodes@.len(),
        ensures
            r.0 == self.nodes@[index as int].image_header,
            r.1 == self.nodes@[index as int].palette_header,
    {
        (self.nodes[index].image_header, self.nodes[index].palette_header)
    }
}

impl Default for TPL {
    fn default() -> (r: Self)
        ensures
            r@.header == (FileHeader { identifier: 0, image_count: 0, image_offset: 0 }),
            r@.nodes == Seq::<ImageNode>::empty(),
            r@.image_datas == Map::<u32, Seq<u8>>::empty(),
            r@.palette_datas == Map::<u32, Seq<u8>>::empty(),
    {
        TPL {
            header: FileHeader::default(),
            nodes: Vec::new(),
            image_datas: BTreeMap::new(),
            palette_datas: BTreeMap::new(),
        }
    }
}

} // verus!
