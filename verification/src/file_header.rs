//! The file header section: the first 26 bytes of a PSD file.
use vstd::prelude::*;

use crate::cursor::{be16, be32, PsdCursor};

verus! {

/// Bytes representing the string "8BPS".
pub const EXPECTED_PSD_SIGNATURE: [u8; 4] = [56, 66, 80, 83];

/// The length of the file header section.
pub const FILE_HEADER_SECTION_LEN: usize = 26;

/// The PSD version: always 1 (a PSB would be 2).
#[derive(Debug, PartialEq, Eq, Structural, Clone, Copy)]
pub enum PsdVersion {
    /// Regular PSD (Not a PSB)
    One,
}

/// The number of channels in the image, including any alpha channels.
/// Supported range is 1 to 56.
#[derive(Debug, PartialEq, Eq, Structural)]
pub struct ChannelCount(u8);

/// Represents an incorrect channel count
#[derive(Debug, PartialEq, Eq, Structural)]
pub enum ChannelCountError {
    OutOfRange { channel_count: u16 },
}

impl View for ChannelCount {
    type V = u8;

    closed spec fn view(&self) -> u8 {
        self.0
    }
}

impl ChannelCount {
    /// Create a new ChannelCount
    pub fn new(channel_count: u8) -> (r: Result<ChannelCount, ChannelCountError>)
        ensures
            1 <= channel_count <= 56 ==> (r matches Ok(c) && c@ == channel_count),
            !(1 <= channel_count <= 56) ==> r == Err::<ChannelCount, ChannelCountError>(
                ChannelCountError::OutOfRange { channel_count: channel_count as u16 },
            ),
    {
        if channel_count < 1 || channel_count > 56 {
            return Err(ChannelCountError::OutOfRange { channel_count: channel_count as u16 });
        }
        Ok(ChannelCount(channel_count))
    }

    /// Return the channel count
    pub fn count(&self) -> (r: u8)
        ensures
            r == self@,
    {
        self.0
    }
}

/// Represents an incorrect width or height
#[derive(Debug, PartialEq, Eq, Structural)]
pub enum PsdSizeError {
    WidthOutOfRange { width: u32 },
    HeightOutOfRange { height: u32 },
}

/// The height of the image in pixels. Supported range is 1 to 30,000.
#[derive(Debug, PartialEq, Eq, Structural)]
pub struct PsdHeight(u32);

impl View for PsdHeight {
    type V = u32;

    closed spec fn view(&self) -> u32 {
        self.0
    }
}

impl PsdHeight {
    /// Create a new PsdHeight
    pub fn new(height: u32) -> (r: Result<PsdHeight, PsdSizeError>)
        ensures
            1 <= height <= 30000 ==> (r matches Ok(h) && h@ == height),
            !(1 <= height <= 30000) ==> r == Err::<PsdHeight, PsdSizeError>(
                PsdSizeError::HeightOutOfRange { height },
            ),
    {
        if height < 1 || height > 30000 {
            return Err(PsdSizeError::HeightOutOfRange { height });
        }
        Ok(PsdHeight(height))
    }

    /// The height in pixels.
    pub fn value(&self) -> (r: u32)
        ensures
            r == self@,
    {
        self.0
    }
}

/// The width of the image in pixels. Supported range is 1 to 30,000.
#[derive(Debug, PartialEq, Eq, Structural, Clone, Copy)]
pub struct PsdWidth(u32);

impl View for PsdWidth {
    type V = u32;

    closed spec fn view(&self) -> u32 {
        self.0
    }
}

impl PsdWidth {
    /// Create a new PsdWidth
    pub fn new(width: u32) -> (r: Result<PsdWidth, PsdSizeError>)
        ensures
            1 <= width <= 30000 ==> (r matches Ok(w) && w@ == width),
            !(1 <= width <= 30000) ==> r == Err::<PsdWidth, PsdSizeError>(
                PsdSizeError::WidthOutOfRange { width },
            ),
    {
        if width < 1 || width > 30000 {
            return Err(PsdSizeError::WidthOutOfRange { width });
        }
        Ok(PsdWidth(width))
    }

    /// The width in pixels.
    pub fn value(&self) -> (r: u32)
        ensures
            r == self@,
    {
        self.0
    }
}

/// Depth: the number of bits per channel. Supported values are 1, 8, 16 and 32.
#[derive(Debug, PartialEq, Eq, Structural, Clone, Copy)]
pub enum PsdDepth {
    One,
    Eight,
    Sixteen,
    ThirtyTwo,
}

/// Represents an incorrect PSD depth
#[derive(Debug, PartialEq, Eq, Structural)]
pub enum PsdDepthError {
    InvalidDepth { depth: u8 },
    UnsupportedDepth,
}

/// The depth that a depth byte stands for.
pub open spec fn depth_from_byte(depth: u8) -> Option<PsdDepth> {
    if depth == 1 {
        Some(PsdDepth::One)
    } else if depth == 8 {
        Some(PsdDepth::Eight)
    } else if depth == 16 {
        Some(PsdDepth::Sixteen)
    } else if depth == 32 {
        Some(PsdDepth::ThirtyTwo)
    } else {
        None
    }
}

impl PsdDepth {
    /// Create a new PsdDepth
    pub fn new(depth: u8) -> (r: Result<PsdDepth, PsdDepthError>)
        ensures
            depth_from_byte(depth) matches Some(d) ==> r == Ok::<PsdDepth, PsdDepthError>(d),
            depth_from_byte(depth) is None ==> r == Err::<PsdDepth, PsdDepthError>(
                PsdDepthError::InvalidDepth { depth },
            ),
    {
        match depth {
            1 => Ok(PsdDepth::One),
            8 => Ok(PsdDepth::Eight),
            16 => Ok(PsdDepth::Sixteen),
            32 => Ok(PsdDepth::ThirtyTwo),
            _ => Err(PsdDepthError::InvalidDepth { depth }),
        }
    }
}

/// The color mode of the file. Supported values are: Bitmap = 0; Grayscale = 1;
/// Indexed = 2; RGB = 3; CMYK = 4; Multichannel = 7; Duotone = 8; Lab = 9.
#[derive(Debug, PartialEq, Eq, Structural, Clone, Copy)]
pub enum ColorMode {
    Bitmap,
    Grayscale,
    Indexed,
    Rgb,
    Cmyk,
    Multichannel,
    Duotone,
    Lab,
}

/// Represents an incorrect color mode
#[derive(Debug, PartialEq, Eq, Structural)]
pub enum ColorModeError {
    InvalidColorMode { color_mode: u8 },
}

/// The color mode that a color mode byte stands for.
pub open spec fn color_mode_from_byte(color_mode: u8) -> Option<ColorMode> {
    if color_mode == 0 {
        Some(ColorMode::Bitmap)
    } else if color_mode == 1 {
        Some(ColorMode::Grayscale)
    } else if color_mode == 2 {
        Some(ColorMode::Indexed)
    } else if color_mode == 3 {
        Some(ColorMode::Rgb)
    } else if color_mode == 4 {
        Some(ColorMode::Cmyk)
    } else if color_mode == 7 {
        Some(ColorMode::Multichannel)
    } else if color_mode == 8 {
        Some(ColorMode::Duotone)
    } else if color_mode == 9 {
        Some(ColorMode::Lab)
    } else {
        None
    }
}

/// The number that the file format gives each color mode: Bitmap 0,
/// Grayscale 1, Indexed 2, RGB 3, CMYK 4, Multichannel 7, Duotone 8, Lab 9.
pub open spec fn color_mode_number(m: ColorMode) -> u8 {
    match m {
        ColorMode::Bitmap => 0,
        ColorMode::Grayscale => 1,
        ColorMode::Indexed => 2,
        ColorMode::Rgb => 3,
        ColorMode::Cmyk => 4,
        ColorMode::Multichannel => 7,
        ColorMode::Duotone => 8,
        ColorMode::Lab => 9,
    }
}

/// A color mode byte reads as exactly the mode that the format numbers with
/// it: the byte reads as `m` if and only if `m`'s number is the byte; bytes
/// that number no mode (5, 6, 10 and above) read as none.
pub proof fn lemma_color_mode_numbers(b: u8, m: ColorMode)
    ensures
        color_mode_from_byte(b) == Some(m) <==> color_mode_number(m) == b,
        color_mode_from_byte(b) is None <==> (b == 5 || b == 6 || b > 9),
{
}

impl ColorMode {
    /// Create a new ColorMode
    pub fn new(color_mode: u8) -> (r: Result<ColorMode, ColorModeError>)
        ensures
            color_mode_from_byte(color_mode) matches Some(c) ==> r == Ok::<ColorMode, ColorModeError>(c),
            color_mode_from_byte(color_mode) is None ==> r == Err::<ColorMode, ColorModeError>(
                ColorModeError::InvalidColorMode { color_mode },
            ),
            r matches Ok(m) ==> color_mode_number(m) == color_mode,
    {
        match color_mode {
            0 => Ok(ColorMode::Bitmap),
            1 => Ok(ColorMode::Grayscale),
            2 => Ok(ColorMode::Indexed),
            3 => Ok(ColorMode::Rgb),
            4 => Ok(ColorMode::Cmyk),
            7 => Ok(ColorMode::Multichannel),
            8 => Ok(ColorMode::Duotone),
            9 => Ok(ColorMode::Lab),
            _ => Err(ColorModeError::InvalidColorMode { color_mode }),
        }
    }
}

/// Represents a malformed file header section, or a field of it out of range.
#[derive(Debug, PartialEq, Eq, Structural)]
pub enum FileHeaderSectionError {
    /// A file header section is comprised of 26 bytes.
    IncorrectLength { length: usize },
    /// The first four bytes of a PSD must always be '8BPS'.
    InvalidSignature {},
    /// Bytes 4 and 5 must always be [0, 1], a PSD version of 1.
    InvalidVersion {},
    /// Bytes 6 to 11 must be zeroes.
    InvalidReserved {},
    /// The channel count is out of range.
    ChannelCount(ChannelCountError),
    /// The width or the height is out of range.
    Size(PsdSizeError),
    /// The depth is not supported.
    Depth(PsdDepthError),
    /// The color mode is not supported.
    ColorMode(ColorModeError),
}

/// The fields of a file header section.
#[derive(PartialEq, Eq, Structural)]
pub struct FileHeaderView {
    pub channel_count: u8,
    pub width: u32,
    pub height: u32,
    pub depth: PsdDepth,
    pub color_mode: ColorMode,
}

/// The FileHeaderSection comes from the first 26 bytes in the PSD file.
#[derive(Debug)]
pub struct FileHeaderSection {
    pub(crate) version: PsdVersion,
    pub(crate) channel_count: ChannelCount,
    pub(crate) width: PsdWidth,
    pub(crate) height: PsdHeight,
    pub(crate) depth: PsdDepth,
    pub(crate) color_mode: ColorMode,
}

impl View for FileHeaderSection {
    type V = FileHeaderView;

    closed spec fn view(&self) -> FileHeaderView {
        FileHeaderView {
            channel_count: self.channel_count@,
            width: self.width@,
            height: self.height@,
            depth: self.depth,
            color_mode: self.color_mode,
        }
    }
}

/// The header's two-byte channel count field.
pub open spec fn header_channel_count(b: Seq<u8>) -> u16 {
    be16(b, 12) as u16
}

/// What the 26 header bytes `b` hold, or the first check that they fail.
pub open spec fn file_header_from_bytes(b: Seq<u8>) -> Result<FileHeaderView, FileHeaderSectionError> {
    let channels = header_channel_count(b);
    let height = be32(b, 14) as u32;
    let width = be32(b, 18) as u32;
    if b.len() != 26 {
        Err(FileHeaderSectionError::IncorrectLength { length: b.len() as usize })
    } else if b.subrange(0, 4) != seq![56u8, 66, 80, 83] {
        Err(FileHeaderSectionError::InvalidSignature {  })
    } else if b.subrange(4, 6) != seq![0u8, 1] {
        Err(FileHeaderSectionError::InvalidVersion {  })
    } else if b.subrange(6, 12) != seq![0u8, 0, 0, 0, 0, 0] {
        Err(FileHeaderSectionError::InvalidReserved {  })
    } else if !(1 <= channels <= 56) {
        Err(
            FileHeaderSectionError::ChannelCount(
                ChannelCountError::OutOfRange { channel_count: channels },
            ),
        )
    } else if !(1 <= height <= 30000) {
        Err(FileHeaderSectionError::Size(PsdSizeError::HeightOutOfRange { height }))
    } else if !(1 <= width <= 30000) {
        Err(FileHeaderSectionError::Size(PsdSizeError::WidthOutOfRange { width }))
    } else if depth_from_byte(b[23]) is None {
        Err(FileHeaderSectionError::Depth(PsdDepthError::InvalidDepth { depth: b[23] }))
    } else if color_mode_from_byte(b[25]) is None {
        Err(FileHeaderSectionError::ColorMode(ColorModeError::InvalidColorMode { color_mode: b[25] }))
    } else {
        Ok(
            FileHeaderView {
                channel_count: channels as u8,
                width,
                height,
                depth: depth_from_byte(b[23])->0,
                color_mode: color_mode_from_byte(b[25])->0,
            },
        )
    }
}

/// A header that reads has the color mode that the format numbers with its
/// color mode byte (the low byte of its last field), and the channel count of
/// its two-byte channel field.
pub proof fn lemma_header_fields(b: Seq<u8>)
    ensures
        file_header_from_bytes(b) matches Ok(h) ==> color_mode_number(h.color_mode) == b[25]
            && h.channel_count == b[12] * 256 + b[13],
{
    if let Ok(h) = file_header_from_bytes(b) {
        lemma_color_mode_numbers(b[25], h.color_mode);
    }
}

/// Whether the bytes of `a` equal those of `b`.
pub fn bytes_equal(a: &[u8], b: &[u8]) -> (r: bool)
    ensures
        r == (a@ == b@),
{
    if a.len() != b.len() {
        return false;
    }
    let mut i: usize = 0;
    while i < a.len()
        invariant
            a@.len() == b@.len(),
            i <= a@.len(),
            a@.take(i as int) == b@.take(i as int),
        decreases a@.len() - i,
    {
        if a[i] != b[i] {
            assert(a@[i as int] != b@[i as int]);
            return false;
        }
        assert(a@.take(i + 1) =~= a@.take(i as int).push(a@[i as int]));
        assert(b@.take(i + 1) =~= b@.take(i as int).push(b@[i as int]));
        i += 1;
    }
    assert(a@ =~= a@.take(i as int));
    assert(b@ =~= b@.take(i as int));
    true
}

impl FileHeaderSection {
    /// Create a FileHeaderSection from the first 26 bytes of a PSD.
    pub fn from_bytes(bytes: &[u8]) -> (r: Result<FileHeaderSection, FileHeaderSectionError>)
        ensures
            file_header_from_bytes(bytes@) is Ok ==> (r matches Ok(h) && Ok::<
                FileHeaderView,
                FileHeaderSectionError,
            >(h@) == file_header_from_bytes(bytes@)),
            file_header_from_bytes(bytes@) matches Err(e) ==> r == Err::<
                FileHeaderSection,
                FileHeaderSectionError,
            >(e),
    {
        let mut cursor = PsdCursor::new(bytes);
        if bytes.len() != 26 {
            return Err(FileHeaderSectionError::IncorrectLength { length: bytes.len() });
        }
        let signature = cursor.read_n::<4>();
        if !bytes_equal(signature, &EXPECTED_PSD_SIGNATURE) {
            assert(signature@ != seq![56u8, 66, 80, 83]);
            return Err(FileHeaderSectionError::InvalidSignature {  });
        }
        assert(signature@ == seq![56u8, 66, 80, 83]);
        let version = cursor.read_n::<2>();
        let expected_version: [u8; 2] = [0, 1];
        if !bytes_equal(version, &expected_version) {
            assert(version@ != seq![0u8, 1]);
            return Err(FileHeaderSectionError::InvalidVersion {  });
        }
        assert(version@ == seq![0u8, 1]);
        let reserved = cursor.read_n::<6>();
        let expected_reserved: [u8; 6] = [0, 0, 0, 0, 0, 0];
        if !bytes_equal(reserved, &expected_reserved) {
            assert(reserved@ != seq![0u8, 0, 0, 0, 0, 0]);
            return Err(FileHeaderSectionError::InvalidReserved {  });
        }
        assert(reserved@ == seq![0u8, 0, 0, 0, 0, 0]);
        let channel = cursor.read_u16();
        if channel < 1 || channel > 56 {
            return Err(
                FileHeaderSectionError::ChannelCount(
                    ChannelCountError::OutOfRange { channel_count: channel },
                ),
            );
        }
        let channel_count = match ChannelCount::new(channel as u8) {
            Ok(c) => c,
            Err(e) => return Err(FileHeaderSectionError::ChannelCount(e)),
        };
        let height = cursor.read_u32();
        let height = match PsdHeight::new(height) {
            Ok(h) => h,
            Err(e) => return Err(FileHeaderSectionError::Size(e)),
        };
        let width = cursor.read_u32();
        let width = match PsdWidth::new(width) {
            Ok(w) => w,
            Err(e) => return Err(FileHeaderSectionError::Size(e)),
        };
        let depth = cursor.read_n::<2>();
        let depth = match PsdDepth::new(depth[1]) {
            Ok(d) => d,
            Err(e) => return Err(FileHeaderSectionError::Depth(e)),
        };
        let color_mode = cursor.read_n::<2>();
        let color_mode = match ColorMode::new(color_mode[1]) {
            Ok(c) => c,
            Err(e) => return Err(FileHeaderSectionError::ColorMode(e)),
        };
        Ok(FileHeaderSection { version: PsdVersion::One, channel_count, width, height, depth, color_mode })
    }

    /// The number of channels.
    pub fn channel_count(&self) -> (r: u8)
        ensures
            r == self@.channel_count,
    {
        self.channel_count.count()
    }

    /// The width of the image in pixels.
    pub fn width(&self) -> (r: u32)
        ensures
            r == self@.width,
    {
        self.width.value()
    }

    /// The height of the image in pixels.
    pub fn height(&self) -> (r: u32)
        ensures
            r == self@.height,
    {
        self.height.value()
    }

    /// The number of bits per channel.
    pub fn depth(&self) -> (r: PsdDepth)
        ensures
            r == self@.depth,
    {
        self.depth
    }

    /// The color mode.
    pub fn color_mode(&self) -> (r: ColorMode)
        ensures
            r == self@.color_mode,
    {
        self.color_mode
    }
}

} // verus!
