//! The image data section: the channels of the PSD's final, merged image.
use vstd::prelude::*;

use crate::channel::{compression_from_code, ChannelBytes, ChannelData, PsdChannelCompression};
use crate::cursor::{be16, PsdCursor};

verus! {

/// Represents a malformed image data section
#[derive(Debug, PartialEq, Eq, Structural)]
pub enum ImageDataSectionError {
    /// The compression code is not 0, 1, 2 or 3.
    InvalidCompression { compression: u16 },
}

/// The image data section as a mathematical value.
pub struct ImageDataView {
    pub compression: PsdChannelCompression,
    pub red: ChannelData,
    pub green: Option<ChannelData>,
    pub blue: Option<ChannelData>,
    pub alpha: Option<ChannelData>,
}

/// The ImageDataSection comes from the final section in the PSD that contains
/// the pixel data of the final PSD image (the one that comes from combining all
/// of the layers). Image data is stored in planar order: first all the red
/// data, then all the green data, etc.
#[derive(Debug)]
pub struct ImageDataSection {
    /// The compression method for the image.
    pub(crate) compression: PsdChannelCompression,
    /// The red channel of the final image
    pub(crate) red: ChannelBytes,
    /// The green channel of the final image
    pub(crate) green: Option<ChannelBytes>,
    /// the blue channel of the final image
    pub(crate) blue: Option<ChannelBytes>,
    /// the alpha channel of the final image.
    /// If there is no alpha channel then it is a fully opaque image.
    pub(crate) alpha: Option<ChannelBytes>,
}

/// The view of an optional channel.
pub open spec fn opt_view(c: Option<ChannelBytes>) -> Option<ChannelData> {
    match c {
        Some(c) => Some(c@),
        None => None,
    }
}

impl View for ImageDataSection {
    type V = ImageDataView;

    closed spec fn view(&self) -> ImageDataView {
        ImageDataView {
            compression: self.compression,
            red: self.red@,
            green: opt_view(self.green),
            blue: opt_view(self.blue),
            alpha: opt_view(self.alpha),
        }
    }
}

/// The sum of the `n` big-endian 16-bit counts in `b` that start at `start`.
pub open spec fn count_total(b: Seq<u8>, start: int, n: int) -> int
    decreases n,
{
    if n <= 0 {
        0
    } else {
        count_total(b, start, n - 1) + be16(b, start + 2 * (n - 1))
    }
}

/// A total of counts grows with the number of counts.
proof fn lemma_count_total_monotonic(b: Seq<u8>, start: int, m: int, n: int)
    requires
        0 <= m <= n,
        0 <= start,
        start + 2 * n <= b.len(),
    ensures
        0 <= count_total(b, start, m) <= count_total(b, start, n),
    decreases n,
{
    if n > m {
        lemma_count_total_monotonic(b, start, m, n - 1);
    } else if n > 0 {
        lemma_count_total_monotonic(b, start, n - 1, n - 1);
    }
}

/// The number of bytes of each channel of raw image data.
pub open spec fn raw_channel_len(width: u32, height: u32) -> int {
    width * height
}

/// The byte counts of the RLE scan lines of channel `c` (0 red, 1 green, 2
/// blue, 3 alpha), summed.
pub open spec fn rle_channel_len(b: Seq<u8>, height: u32, c: int) -> int {
    count_total(b, 2 + 2 * c * height, height as int)
}

/// How many of the red, green, blue and alpha channels the image data holds.
pub open spec fn rgba_channels(channel_count: u8) -> int {
    if channel_count >= 4 {
        if channel_count == 4 { 4int } else { 3int }
    } else if channel_count == 0 {
        1int
    } else {
        channel_count as int
    }
}

/// Where the scan line counts that are read end.
pub open spec fn rle_counts_end(channel_count: u8, height: u32) -> int {
    2 + 2 * height + (if channel_count >= 2 { 2 * height } else { 0 }) + (if channel_count >= 3 {
        2 * height
    } else {
        0
    }) + (if channel_count == 4 { 2 * height } else { 0 })
}

/// Where the RLE channel `c` of the image data starts: after the compression
/// code, the scan line counts of all channels, and channels `0..c`.
pub open spec fn rle_channel_start(b: Seq<u8>, height: u32, channel_count: u8, c: int) -> int
    decreases c,
{
    if c <= 0 {
        2 + channel_count * height * 2
    } else {
        rle_channel_start(b, height, channel_count, c - 1) + rle_channel_len(b, height, c - 1)
    }
}

/// Reading the image data does not fail on its bytes: the compression code
/// can be read and is not zip, and every count and channel that is read lies
/// within `b`, with no arithmetic overflow on the way.
pub open spec fn image_data_ok(b: Seq<u8>, width: u32, height: u32, channel_count: u8) -> bool {
    let code = be16(b, 0) as u16;
    &&& 2 <= b.len()
    &&& code != 2 && code != 3
    &&& code == 0 ==> {
        let per = raw_channel_len(width, height);
        &&& per <= u32::MAX
        &&& 2 + per * channel_count <= b.len()
        &&& per <= per * channel_count
    }
    &&& code == 1 ==> {
        &&& 2 + channel_count * height * 2 <= usize::MAX
        &&& rle_counts_end(channel_count, height) <= b.len()
        &&& rle_channel_start(b, height, channel_count, rgba_channels(channel_count)) <= b.len()
    }
}

/// The channel `c` of raw image data.
pub open spec fn raw_channel(b: Seq<u8>, width: u32, height: u32, c: int) -> ChannelData {
    let per = raw_channel_len(width, height);
    ChannelData::RawData(b.subrange(2 + c * per, 2 + (c + 1) * per))
}

/// The channel `c` of RLE image data.
pub open spec fn rle_channel(b: Seq<u8>, height: u32, channel_count: u8, c: int) -> ChannelData {
    let start = rle_channel_start(b, height, channel_count, c);
    ChannelData::RleCompressed(b.subrange(start, start + rle_channel_len(b, height, c)))
}

/// The channel `c` of the image data, if the image data holds it.
pub open spec fn image_channel(b: Seq<u8>, width: u32, height: u32, channel_count: u8, c: int) -> Option<
    ChannelData,
> {
    if c < rgba_channels(channel_count) {
        if be16(b, 0) == 0 {
            Some(raw_channel(b, width, height, c))
        } else {
            Some(rle_channel(b, height, channel_count, c))
        }
    } else {
        None
    }
}

/// The image data section that the bytes `b` hold.
pub open spec fn image_data_from_bytes(b: Seq<u8>, width: u32, height: u32, channel_count: u8) -> Result<
    ImageDataView,
    ImageDataSectionError,
> {
    let code = be16(b, 0) as u16;
    if compression_from_code(code) is None {
        Err(ImageDataSectionError::InvalidCompression { compression: code })
    } else {
        Ok(
            ImageDataView {
                compression: compression_from_code(code)->0,
                red: image_channel(b, width, height, channel_count, 0)->0,
                green: image_channel(b, width, height, channel_count, 1),
                blue: image_channel(b, width, height, channel_count, 2),
                alpha: image_channel(b, width, height, channel_count, 3),
            },
        )
    }
}

/// A copy of `bytes[start..end]`.
pub fn copy_range(bytes: &[u8], start: usize, end: usize) -> (r: Vec<u8>)
    requires
        start <= end <= bytes@.len(),
    ensures
        r@ == bytes@.subrange(start as int, end as int),
{
    let mut out: Vec<u8> = Vec::with_capacity(end - start);
    let mut i = start;
    while i < end
        invariant
            start <= i <= end,
            end <= bytes@.len(),
            out@ == bytes@.subrange(start as int, i as int),
        decreases end - i,
    {
        out.push(bytes[i]);
        i += 1;
        assert(out@ =~= bytes@.subrange(start as int, i as int));
    }
    out
}

/// Read `height` scan line byte counts and sum them.
fn read_count_total(cursor: &mut PsdCursor, height: u32, bound: usize) -> (r: usize)
    requires
        old(cursor).pos() + 2 * height <= old(cursor).data().len(),
        count_total(old(cursor).data(), old(cursor).pos(), height as int) <= bound,
    ensures
        final(cursor).data() == old(cursor).data(),
        final(cursor).pos() == old(cursor).pos() + 2 * height,
        r == count_total(old(cursor).data(), old(cursor).pos(), height as int),
{
    let ghost s = cursor.data();
    let ghost start = cursor.pos();
    proof {
        cursor.lemma_pos_bounds();
    }
    let mut total: usize = 0;
    let mut i: u32 = 0;
    while i < height
        invariant
            cursor.data() == s,
            i <= height,
            start + 2 * height <= s.len(),
            0 <= start,
            cursor.pos() == start + 2 * i,
            total == count_total(s, start, i as int),
            count_total(s, start, height as int) <= bound,
        decreases height - i,
    {
        let v = cursor.read_u16();
        proof {
            lemma_count_total_monotonic(s, start, i + 1, height as int);
        }
        total = total + v as usize;
        i += 1;
    }
    total
}

impl ImageDataSection {
    /// Create an ImageDataSection from the bytes in the corresponding section
    /// in a PSD file.
    pub fn from_bytes(bytes: &[u8], psd_width: u32, psd_height: u32, channel_count: u8) -> (r:
        Result<ImageDataSection, ImageDataSectionError>)
        requires
            image_data_ok(bytes@, psd_width, psd_height, channel_count),
        ensures
            image_data_from_bytes(bytes@, psd_width, psd_height, channel_count) matches Ok(v)
                ==> (r matches Ok(d) && d@ == v),
            image_data_from_bytes(bytes@, psd_width, psd_height, channel_count) matches Err(e)
                ==> r == Err::<ImageDataSection, ImageDataSectionError>(e),
    {
        let ghost b = bytes@;
        let mut cursor = PsdCursor::new(bytes);
        let len = bytes.len();
        let channel_count = channel_count as usize;
        let compression_code = cursor.read_u16();
        let compression = match PsdChannelCompression::new(compression_code) {
            Some(c) => c,
            None => return Err(ImageDataSectionError::InvalidCompression { compression: compression_code }),
        };
        let (red, green, blue, alpha) = match compression {
            PsdChannelCompression::RawData => {
                let bytes_per_channel = (psd_width * psd_height) as usize;
                let total_channel_bytes = bytes_per_channel * channel_count;
                proof {
                    let per = bytes_per_channel as int;
                    let cc = channel_count as int;
                    assert(cc >= 2 ==> per * 2 <= per * cc) by (nonlinear_arith)
                        requires
                            per >= 0,
                            cc >= 0,
                    ;
                    assert(cc >= 3 ==> per * 3 <= per * cc) by (nonlinear_arith)
                        requires
                            per >= 0,
                            cc >= 0,
                    ;
                    assert(cc >= 4 ==> per * 4 <= per * cc) by (nonlinear_arith)
                        requires
                            per >= 0,
                            cc >= 0,
                    ;
                }
                let red = ChannelBytes::RawData(copy_range(bytes, 2, 2 + bytes_per_channel));
                let green = if channel_count >= 2 {
                    Some(ChannelBytes::RawData(copy_range(bytes, 2 + bytes_per_channel, 2 + 2 * bytes_per_channel)))
                } else {
                    None
                };
                let blue = if channel_count >= 3 {
                    Some(ChannelBytes::RawData(copy_range(bytes, 2 + 2 * bytes_per_channel, 2 + 3 * bytes_per_channel)))
                } else {
                    None
                };
                let alpha = if channel_count == 4 {
                    Some(ChannelBytes::RawData(copy_range(bytes, 2 + 3 * bytes_per_channel, 2 + 4 * bytes_per_channel)))
                } else {
                    None
                };
                (red, green, blue, alpha)
            },
            PsdChannelCompression::RleCompressed => {
                let ghost n = rgba_channels(channel_count as u8);
                proof {
                    reveal_with_fuel(rle_channel_start, 5);
                    let h = psd_height as int;
                    lemma_count_total_monotonic(b, 2, 0, h);
                    if channel_count >= 2 {
                        lemma_count_total_monotonic(b, 2 + 2 * h, 0, h);
                    }
                    if channel_count >= 3 {
                        lemma_count_total_monotonic(b, 2 + 4 * h, 0, h);
                    }
                    if channel_count == 4 {
                        lemma_count_total_monotonic(b, 2 + 6 * h, 0, h);
                    }
                    assert(rle_channel_start(b, psd_height, channel_count as u8, n) <= len);
                }
                let red_byte_count = read_count_total(&mut cursor, psd_height, len);
                let green_byte_count = if channel_count >= 2 {
                    Some(read_count_total(&mut cursor, psd_height, len))
                } else {
                    None
                };
                let blue_byte_count = if channel_count >= 3 {
                    Some(read_count_total(&mut cursor, psd_height, len))
                } else {
                    None
                };
                let alpha_byte_count = if channel_count == 4 {
                    Some(read_count_total(&mut cursor, psd_height, len))
                } else {
                    None
                };
                let channel_data_start = 2 + (channel_count * psd_height as usize * 2);
                let red_start = channel_data_start;
                let red_end = red_start + red_byte_count;
                let red = ChannelBytes::RleCompressed(copy_range(bytes, red_start, red_end));
                let green = match green_byte_count {
                    Some(green_byte_count) => {
                        let green_end = red_end + green_byte_count;
                        Some(ChannelBytes::RleCompressed(copy_range(bytes, red_end, green_end)))
                    },
                    None => None,
                };
                let blue = match blue_byte_count {
                    Some(blue_byte_count) => {
                        let blue_start = red_end + green_byte_count.unwrap();
                        let blue_end = blue_start + blue_byte_count;
                        Some(ChannelBytes::RleCompressed(copy_range(bytes, blue_start, blue_end)))
                    },
                    None => None,
                };
                let alpha = match alpha_byte_count {
                    Some(alpha_byte_count) => {
                        let alpha_start = red_end + green_byte_count.unwrap() + blue_byte_count.unwrap();
                        let alpha_end = alpha_start + alpha_byte_count;
                        Some(ChannelBytes::RleCompressed(copy_range(bytes, alpha_start, alpha_end)))
                    },
                    None => None,
                };
                (red, green, blue, alpha)
            },
            _ => {
                assert(false);
                return Err(ImageDataSectionError::InvalidCompression { compression: compression_code });
            },
        };
        Ok(ImageDataSection { compression, red, green, blue, alpha })
    }
}

impl ImageDataSection {
    /// The compression method of the image.
    pub fn compression(&self) -> (r: &PsdChannelCompression)
        ensures
            *r == self@.compression,
    {
        &self.compression
    }

    /// The red channel of the final image.
    pub fn red(&self) -> (r: &ChannelBytes)
        ensures
            r@ == self@.red,
    {
        &self.red
    }

    /// The green channel of the final image, if it has one.
    pub fn green(&self) -> (r: Option<&ChannelBytes>)
        ensures
            r is Some <==> self@.green is Some,
            r matches Some(c) ==> c@ == self@.green->0,
    {
        self.green.as_ref()
    }

    /// The blue channel of the final image, if it has one.
    pub fn blue(&self) -> (r: Option<&ChannelBytes>)
        ensures
            r is Some <==> self@.blue is Some,
            r matches Some(c) ==> c@ == self@.blue->0,
    {
        self.blue.as_ref()
    }

    /// The alpha channel of the final image, if it has one.
    pub fn alpha(&self) -> (r: Option<&ChannelBytes>)
        ensures
            r is Some <==> self@.alpha is Some,
            r matches Some(c) ==> c@ == self@.alpha->0,
    {
        self.alpha.as_ref()
    }
}

} // verus!
