//! Channels of the PSD's final image and of its layers: their kinds, their
//! compression, and how they combine into RGBA pixels.
use vstd::prelude::*;

use crate::cursor::PsdCursor;
use crate::rle::{rle_decode, rle_decompress, rle_runs_complete, run_header};

verus! {

/// Indicates how a channel's data is compressed.
#[derive(Debug, PartialEq, Eq, Structural, Clone, Copy)]
pub enum PsdChannelCompression {
    /// Not compressed
    RawData,
    /// Compressed using PackBits RLE compression
    RleCompressed,
    /// Currently unsupported
    ZipWithoutPrediction,
    /// Currently unsupported
    ZipWithPrediction,
}

impl PsdChannelCompression {
    /// The compression that `compression` stands for: 0 raw, 1 RLE, 2 zip
    /// without prediction, 3 zip with prediction.
    pub fn new(compression: u16) -> (r: Option<PsdChannelCompression>)
        ensures
            r == compression_from_code(compression),
    {
        match compression {
            0 => Some(PsdChannelCompression::RawData),
            1 => Some(PsdChannelCompression::RleCompressed),
            2 => Some(PsdChannelCompression::ZipWithoutPrediction),
            3 => Some(PsdChannelCompression::ZipWithPrediction),
            _ => None,
        }
    }
}

/// The compression that a two-byte compression code stands for.
pub open spec fn compression_from_code(code: u16) -> Option<PsdChannelCompression> {
    if code == 0 {
        Some(PsdChannelCompression::RawData)
    } else if code == 1 {
        Some(PsdChannelCompression::RleCompressed)
    } else if code == 2 {
        Some(PsdChannelCompression::ZipWithoutPrediction)
    } else if code == 3 {
        Some(PsdChannelCompression::ZipWithPrediction)
    } else {
        None
    }
}

/// The different kinds of channels in a layer (red, green, blue, ...),
/// ordered as their channel ids are (-3, -2, -1, 0, 1, 2).
#[derive(Debug, Hash, PartialEq, Eq, Structural, PartialOrd, Ord, Clone, Copy)]
pub enum PsdChannelKind {
    RealUserSuppliedLayerMask,
    UserSuppliedLayerMask,
    TransparencyMask,
    Red,
    Green,
    Blue,
}

/// The channel kind that a channel id stands for: 0 red, 1 green, 2 blue,
/// -1 transparency mask, -2 user supplied layer mask, -3 real user supplied
/// layer mask.
pub open spec fn channel_kind_from_id(id: i16) -> Option<PsdChannelKind> {
    if id == 0 {
        Some(PsdChannelKind::Red)
    } else if id == 1 {
        Some(PsdChannelKind::Green)
    } else if id == 2 {
        Some(PsdChannelKind::Blue)
    } else if id == -1 {
        Some(PsdChannelKind::TransparencyMask)
    } else if id == -2 {
        Some(PsdChannelKind::UserSuppliedLayerMask)
    } else if id == -3 {
        Some(PsdChannelKind::RealUserSuppliedLayerMask)
    } else {
        None
    }
}

/// Where a channel kind's byte sits within an RGBA pixel, if it has one.
pub open spec fn rgba_offset_of(kind: PsdChannelKind) -> Option<usize> {
    match kind {
        PsdChannelKind::Red => Some(0),
        PsdChannelKind::Green => Some(1),
        PsdChannelKind::Blue => Some(2),
        PsdChannelKind::TransparencyMask => Some(3),
        _ => None,
    }
}

/// The message for a channel kind that has no place in an RGBA pixel: the
/// kind's name, then " is not an RGBA channel".
pub open spec fn not_rgba_message(kind: PsdChannelKind) -> Seq<char> {
    match kind {
        PsdChannelKind::UserSuppliedLayerMask => "UserSuppliedLayerMask is not an RGBA channel"@,
        PsdChannelKind::RealUserSuppliedLayerMask => "RealUserSuppliedLayerMask is not an RGBA channel"@,
        _ => Seq::empty(),
    }
}

impl PsdChannelKind {
    /// The channel kind that `channel_id` stands for.
    pub fn new(channel_id: i16) -> (r: Option<PsdChannelKind>)
        ensures
            r == channel_kind_from_id(channel_id),
    {
        match channel_id {
            0 => Some(PsdChannelKind::Red),
            1 => Some(PsdChannelKind::Green),
            2 => Some(PsdChannelKind::Blue),
            -1 => Some(PsdChannelKind::TransparencyMask),
            -2 => Some(PsdChannelKind::UserSuppliedLayerMask),
            -3 => Some(PsdChannelKind::RealUserSuppliedLayerMask),
            _ => None,
        }
    }

    /// R -> 0, G -> 1, B -> 2, A -> 3; the masks have no RGBA offset.
    pub fn rgba_offset(self) -> (r: Result<usize, String>)
        ensures
            r is Ok <==> rgba_offset_of(self) is Some,
            r matches Ok(o) ==> rgba_offset_of(self) == Some(o),
            r matches Err(m) ==> m@ == not_rgba_message(self),
    {
        match self {
            PsdChannelKind::Red => Ok(0),
            PsdChannelKind::Green => Ok(1),
            PsdChannelKind::Blue => Ok(2),
            PsdChannelKind::TransparencyMask => Ok(3),
            PsdChannelKind::UserSuppliedLayerMask => Err(
                "UserSuppliedLayerMask is not an RGBA channel".to_string(),
            ),
            PsdChannelKind::RealUserSuppliedLayerMask => Err(
                "RealUserSuppliedLayerMask is not an RGBA channel".to_string(),
            ),
        }
    }
}

/// The bytes of one channel, as stored in the file.
#[derive(Debug)]
pub enum ChannelBytes {
    RawData(Vec<u8>),
    RleCompressed(Vec<u8>),
}

/// The bytes of one channel, as stored in the file, as a mathematical value.
pub enum ChannelData {
    RawData(Seq<u8>),
    RleCompressed(Seq<u8>),
}

impl View for ChannelBytes {
    type V = ChannelData;

    open spec fn view(&self) -> ChannelData {
        match self {
            ChannelBytes::RawData(v) => ChannelData::RawData(v@),
            ChannelBytes::RleCompressed(v) => ChannelData::RleCompressed(v@),
        }
    }
}

/// The bytes of a channel once decompressed.
pub open spec fn decoded(c: ChannelData) -> Seq<u8> {
    match c {
        ChannelData::RawData(v) => v,
        ChannelData::RleCompressed(v) => rle_decode(v),
    }
}

/// The RGBA pixels of a 16-bit grayscale channel: each big-endian pair of
/// bytes gives a gray pixel whose level is the pair's high byte, opaque.
pub open spec fn gray_pixels(s: Seq<u8>) -> Seq<u8> {
    Seq::new(
        (s.len() / 2 * 4) as nat,
        |i: int|
            if i % 4 == 3 {
                255u8
            } else {
                s[2 * (i / 4)]
            },
    )
}

/// Append the gray pixels of the 16-bit channel `channel` to `eight`.
fn push_gray_pixels(eight: &mut Vec<u8>, channel: &[u8])
    requires
        channel@.len() % 2 == 0,
    ensures
        final(eight)@ == old(eight)@ + gray_pixels(channel@),
{
    let ghost start = eight@;
    let len = channel.len();
    let mut idx: usize = 0;
    while idx < len
        invariant
            len == channel@.len(),
            len % 2 == 0,
            idx <= len,
            idx % 2 == 0,
            eight@ == start + gray_pixels(channel@).take(idx / 2 * 4),
        decreases len - idx,
    {
        let sixteen_bit = (channel[idx] as u16) * 256 + (channel[idx + 1] as u16);
        let eight_bit = (sixteen_bit / 256) as u8;
        assert(eight_bit == channel@[idx as int]);
        eight.push(eight_bit);
        eight.push(eight_bit);
        eight.push(eight_bit);
        eight.push(255);
        let ghost g = gray_pixels(channel@);
        assert(g.take((idx + 2) / 2 * 4) =~= g.take(idx / 2 * 4) + seq![
            eight_bit,
            eight_bit,
            eight_bit,
            255u8,
        ]);
        idx += 2;
    }
    assert(gray_pixels(channel@).take(len / 2 * 4) =~= gray_pixels(channel@));
}

/// Take two 8 bit channels that together represent a 16 bit channel and
/// convert them down into RGBA pixels: first those of `channel1`, then those
/// of `channel2`.
pub fn sixteen_to_eight_rgba(channel1: &[u8], channel2: &[u8]) -> (r: Vec<u8>)
    requires
        channel1@.len() % 2 == 0,
        channel2@.len() % 2 == 0,
    ensures
        r@ == gray_pixels(channel1@) + gray_pixels(channel2@),
{
    let mut eight: Vec<u8> = Vec::with_capacity(channel1.len());
    push_gray_pixels(&mut eight, channel1);
    push_gray_pixels(&mut eight, channel2);
    eight
}

/// `rgba` after the bytes of `bytes` are written to slot `off` of the RGBA
/// pixels, the byte of pixel `i` (in the image's own rectangle) going to the
/// pixel where `img` places it. A later byte wins over an earlier one; a byte
/// with no place, or whose place lies beyond `rgba`, is dropped.
pub open spec fn scatter<T: IntoRgba>(img: &T, rgba: Seq<u8>, bytes: Seq<u8>, off: int) -> Seq<u8>
    decreases bytes.len(),
{
    if bytes.len() == 0 {
        rgba
    } else {
        let prev = scatter(img, rgba, bytes.drop_last(), off);
        match img.pixel_index(bytes.len() - 1) {
            Some(j) => if 0 <= 4 * j + off < prev.len() {
                prev.update(4 * j + off, bytes.last())
            } else {
                prev
            },
            None => prev,
        }
    }
}

/// Scattering bytes never changes how many bytes there are.
pub proof fn lemma_scatter_len<T: IntoRgba>(img: &T, rgba: Seq<u8>, bytes: Seq<u8>, off: int)
    ensures
        scatter(img, rgba, bytes, off).len() == rgba.len(),
    decreases bytes.len(),
{
    if bytes.len() > 0 {
        lemma_scatter_len(img, rgba, bytes.drop_last(), off);
    }
}

/// Scattering bytes into slot `off` keeps every byte of the other slots.
pub proof fn lemma_scatter_keeps_other_slots<T: IntoRgba>(
    img: &T,
    rgba: Seq<u8>,
    bytes: Seq<u8>,
    off: int,
)
    requires
        0 <= off <= 3,
    ensures
        forall|k: int|
            0 <= k < rgba.len() && k % 4 != off ==> #[trigger] scatter(img, rgba, bytes, off)[k]
                == rgba[k],
    decreases bytes.len(),
{
    if bytes.len() > 0 {
        lemma_scatter_keeps_other_slots(img, rgba, bytes.drop_last(), off);
        lemma_scatter_len(img, rgba, bytes.drop_last(), off);
        let prev = scatter(img, rgba, bytes.drop_last(), off);
        assert forall|k: int| 0 <= k < rgba.len() && k % 4 != off implies #[trigger] scatter(
            img,
            rgba,
            bytes,
            off,
        )[k] == rgba[k] by {
            assert(prev[k] == rgba[k]);
            match img.pixel_index(bytes.len() - 1) {
                Some(j) => {
                    assert((4 * j + off) % 4 == off);
                },
                None => {},
            }
        }
    }
}

/// `rgba` with every alpha byte set to 255.
pub open spec fn opaque(rgba: Seq<u8>) -> Seq<u8> {
    Seq::new(rgba.len(), |i: int| if i % 4 == 3 { 255u8 } else { rgba[i] })
}

/// Channel `c` can be written to slot `off` of an RGBA buffer of `total`
/// bytes: raw bytes all land within the buffer, and no place of a decoded
/// RLE byte overflows a `usize`.
pub open spec fn channel_fits<T: IntoRgba>(img: &T, c: ChannelData, off: int, total: int) -> bool {
    match c {
        ChannelData::RawData(v) => forall|i: int|
            0 <= i < v.len() ==> (#[trigger] img.pixel_index(i) matches Some(j) ==> 4 * j
                + off < total),
        ChannelData::RleCompressed(v) => rle_fits(img, v),
    }
}

/// Every byte that `v` decodes to can be counted, and placed, in a `usize`.
pub open spec fn rle_fits<T: IntoRgba>(img: &T, v: Seq<u8>) -> bool {
    &&& rle_decode(v).len() <= usize::MAX
    &&& forall|i: int|
        0 <= i < rle_decode(v).len() ==> (#[trigger] img.pixel_index(i) matches Some(j) ==> 4 * j
            + 3 <= usize::MAX)
}

/// The channel that stands in for a missing green or blue channel: red.
pub open spec fn or_red(c: Option<ChannelData>, red: ChannelData) -> ChannelData {
    match c {
        Some(c) => c,
        None => red,
    }
}

/// The size in bytes of the RGBA image of `img`.
pub open spec fn rgba_len<T: IntoRgba>(img: &T) -> int {
    img.spec_psd_width() * img.spec_psd_height() * 4
}

/// The RGBA image of `img`: its red, green and blue channels (red standing in
/// for a missing green or blue) written over zeros, then its alpha channel,
/// or full opacity where it has none.
pub open spec fn rgba_image<T: IntoRgba>(img: &T) -> Seq<u8> {
    let red = img.spec_red();
    let r = scatter(img, Seq::new(rgba_len(img) as nat, |i: int| 0u8), decoded(red), 0);
    let g = scatter(img, r, decoded(or_red(img.spec_green(), red)), 1);
    let b = scatter(img, g, decoded(or_red(img.spec_blue(), red)), 2);
    match img.spec_alpha() {
        Some(a) => scatter(img, b, decoded(a), 3),
        None => opaque(b),
    }
}

/// The RGBA image of `img` has four bytes for each pixel of the PSD.
pub proof fn lemma_rgba_image_len<T: IntoRgba>(img: &T)
    ensures
        rgba_image(img).len() == rgba_len(img),
{
    let w = img.spec_psd_width() as int;
    let h = img.spec_psd_height() as int;
    assert(w * h * 4 >= 0) by (nonlinear_arith)
        requires
            w >= 0,
            h >= 0,
    ;
    let red = img.spec_red();
    let zeros = Seq::new(rgba_len(img) as nat, |i: int| 0u8);
    lemma_scatter_len(img, zeros, decoded(red), 0);
    let r = scatter(img, zeros, decoded(red), 0);
    lemma_scatter_len(img, r, decoded(or_red(img.spec_green(), red)), 1);
    let g = scatter(img, r, decoded(or_red(img.spec_green(), red)), 1);
    lemma_scatter_len(img, g, decoded(or_red(img.spec_blue(), red)), 2);
    let b = scatter(img, g, decoded(or_red(img.spec_blue(), red)), 2);
    match img.spec_alpha() {
        Some(a) => {
            lemma_scatter_len(img, b, decoded(a), 3);
        },
        None => {},
    }
}

/// What generating the RGBA image of `img` needs: a size that fits in a
/// `u32`, and channels that fit their slots.
pub open spec fn rgba_ok<T: IntoRgba>(img: &T) -> bool {
    let red = img.spec_red();
    let total = rgba_len(img);
    &&& img.placement_ok()
    &&& total <= u32::MAX
    &&& channel_fits(img, red, 0, total)
    &&& channel_fits(img, or_red(img.spec_green(), red), 1, total)
    &&& channel_fits(img, or_red(img.spec_blue(), red), 2, total)
    &&& (img.spec_alpha() matches Some(a) ==> channel_fits(img, a, 3, total))
}

/// A channel whose RLE runs are complete and whose decoded length is even.
pub open spec fn sixteen_bit_ok(c: ChannelData) -> bool {
    &&& decoded(c).len() % 2 == 0
    &&& (c matches ChannelData::RleCompressed(v) ==> rle_runs_complete(v, false))
}

/// An image (the final image, or a layer) whose channels can be combined into
/// RGBA pixels.
pub trait IntoRgba: Sized {
    /// Where pixel `idx` of this image's own rectangle (top left is 0, the
    /// one to its right 1, ...) lands in the RGBA image, if anywhere.
    spec fn pixel_index(&self, idx: int) -> Option<usize>;

    /// What `rgba_idx` and `red` need of this image.
    spec fn placement_ok(&self) -> bool;

    /// The first channel.
    spec fn spec_red(&self) -> ChannelData;

    /// The second channel.
    spec fn spec_green(&self) -> Option<ChannelData>;

    /// The third channel.
    spec fn spec_blue(&self) -> Option<ChannelData>;

    /// The fourth channel.
    spec fn spec_alpha(&self) -> Option<ChannelData>;

    /// The width of the PSD.
    spec fn spec_psd_width(&self) -> u32;

    /// The height of the PSD.
    spec fn spec_psd_height(&self) -> u32;

    /// Given an index of a pixel in the current rectangle return the index
    /// of that pixel in the RGBA image that will be generated.
    fn rgba_idx(&self, idx: usize) -> (r: Option<usize>)
        requires
            self.placement_ok(),
        ensures
            r == self.pixel_index(idx as int),
    ;

    /// The first channel
    fn red(&self) -> (r: &ChannelBytes)
        requires
            self.placement_ok(),
        ensures
            r@ == self.spec_red(),
    ;

    /// The second channel
    fn green(&self) -> (r: Option<&ChannelBytes>)
        ensures
            r is Some <==> self.spec_green() is Some,
            r matches Some(c) ==> c@ == self.spec_green()->0,
    ;

    /// The third channel
    fn blue(&self) -> (r: Option<&ChannelBytes>)
        ensures
            r is Some <==> self.spec_blue() is Some,
            r matches Some(c) ==> c@ == self.spec_blue()->0,
    ;

    /// The fourth channel
    fn alpha(&self) -> (r: Option<&ChannelBytes>)
        ensures
            r is Some <==> self.spec_alpha() is Some,
            r matches Some(c) ==> c@ == self.spec_alpha()->0,
    ;

    /// The width of the PSD
    fn psd_width(&self) -> (r: u32)
        ensures
            r == self.spec_psd_width(),
    ;

    /// The height of the PSD
    fn psd_height(&self) -> (r: u32)
        ensures
            r == self.spec_psd_height(),
    ;
}

/// Combine the channels into RGBA pixels: [R, G, B, A, R, G, B, A, ...].
pub fn generate_rgba<T: IntoRgba>(img: &T) -> (r: Vec<u8>)
    requires
        rgba_ok(img),
    ensures
        r@ == rgba_image(img),
{
    let rgba_len = (img.psd_width() * img.psd_height() * 4) as usize;
    let red = img.red();
    let green = img.green();
    let blue = img.blue();
    let alpha = img.alpha();

    let mut rgba: Vec<u8> = vec![0; rgba_len];
    assert(rgba@ =~= Seq::new(rgba_len as nat, |i: int| 0u8));

    insert_channel_bytes(img, &mut rgba, PsdChannelKind::Red, red);
    if let Some(green) = green {
        insert_channel_bytes(img, &mut rgba, PsdChannelKind::Green, green);
    } else {
        insert_channel_bytes(img, &mut rgba, PsdChannelKind::Green, red);
    }
    if let Some(blue) = blue {
        insert_channel_bytes(img, &mut rgba, PsdChannelKind::Blue, blue);
    } else {
        insert_channel_bytes(img, &mut rgba, PsdChannelKind::Blue, red);
    }
    if let Some(alpha_channel) = alpha {
        insert_channel_bytes(img, &mut rgba, PsdChannelKind::TransparencyMask, alpha_channel);
    } else {
        let ghost b = rgba@;
        let n = rgba_len / 4;
        let mut idx: usize = 0;
        while idx < n
            invariant
                n == rgba_len / 4,
                rgba_len % 4 == 0,
                b.len() == rgba_len,
                idx <= n,
                rgba@ == Seq::new(
                    b.len(),
                    |i: int| if i % 4 == 3 && i / 4 < idx { 255u8 } else { b[i] },
                ),
            decreases n - idx,
        {
            rgba.set(idx * 4 + 3, 255);
            idx += 1;
            assert(rgba@ =~= Seq::new(
                b.len(),
                |i: int| if i % 4 == 3 && i / 4 < idx { 255u8 } else { b[i] },
            ));
        }
        assert(rgba@ =~= opaque(b));
    }
    rgba
}

/// The RGBA pixels of a 16-bit grayscale image, whose 16 bits are stored
/// across the red and green channels.
pub fn generate_16_bit_grayscale_rgba<T: IntoRgba>(img: &T) -> (r: Vec<u8>)
    requires
        img.placement_ok(),
        img.spec_green() is Some,
        sixteen_bit_ok(img.spec_red()),
        sixteen_bit_ok(img.spec_green()->0),
    ensures
        r@ == gray_pixels(decoded(img.spec_red())) + gray_pixels(
            decoded(img.spec_green()->0),
        ),
{
    let green = match img.green() {
        Some(g) => g,
        None => {
            assert(false);
            img.red()
        },
    };
    match img.red() {
        ChannelBytes::RawData(red) => match green {
            ChannelBytes::RawData(green) => sixteen_to_eight_rgba(red.as_slice(), green.as_slice()),
            ChannelBytes::RleCompressed(green) => {
                let green = rle_decompress(green.as_slice());
                sixteen_to_eight_rgba(red.as_slice(), green.as_slice())
            },
        },
        ChannelBytes::RleCompressed(red) => {
            let red = rle_decompress(red.as_slice());
            match green {
                ChannelBytes::RawData(green) => sixteen_to_eight_rgba(red.as_slice(), green.as_slice()),
                ChannelBytes::RleCompressed(green) => {
                    let green = rle_decompress(green.as_slice());
                    sixteen_to_eight_rgba(red.as_slice(), green.as_slice())
                },
            }
        },
    }
}

/// Write the byte of pixel `idx` to slot `offset` of its place in `rgba`,
/// if it has one within `rgba`.
fn put_pixel_byte<T: IntoRgba>(img: &T, rgba: &mut Vec<u8>, idx: usize, offset: usize, byte: u8)
    requires
        img.placement_ok(),
        offset <= 3,
        img.pixel_index(idx as int) matches Some(j) ==> 4 * j + offset <= usize::MAX,
    ensures
        final(rgba)@ == match img.pixel_index(idx as int) {
            Some(j) => if 4 * j + offset < old(rgba)@.len() {
                old(rgba)@.update(4 * j + offset, byte)
            } else {
                old(rgba)@
            },
            None => old(rgba)@,
        },
{
    if let Some(rgba_idx) = img.rgba_idx(idx) {
        let at = rgba_idx * 4 + offset;
        if at < rgba.len() {
            rgba.set(at, byte);
        }
    }
}

/// Insert the bytes of a channel into slot `channel_kind` of the RGBA pixels.
pub fn insert_channel_bytes<T: IntoRgba>(
    img: &T,
    rgba: &mut Vec<u8>,
    channel_kind: PsdChannelKind,
    channel_bytes: &ChannelBytes,
)
    requires
        img.placement_ok(),
        rgba_offset_of(channel_kind) is Some,
        channel_fits(img, channel_bytes@, rgba_offset_of(channel_kind)->0 as int, old(rgba)@.len() as int),
    ensures
        final(rgba)@ == scatter(img,
            old(rgba)@,
            decoded(channel_bytes@),
            rgba_offset_of(channel_kind)->0 as int,
        ),
        final(rgba)@.len() == old(rgba)@.len(),
{
    proof {
        lemma_scatter_len(
            img,
            rgba@,
            decoded(channel_bytes@),
            rgba_offset_of(channel_kind)->0 as int,
        );
    }
    match channel_bytes {
        ChannelBytes::RawData(channel_bytes) => {
            let offset = channel_kind.rgba_offset().unwrap();
            let ghost start = rgba@;
            let total = rgba.len();
            let n = channel_bytes.len();
            let mut idx: usize = 0;
            assert(channel_bytes@.take(0) =~= Seq::<u8>::empty());
            while idx < n
                invariant
                    img.placement_ok(),
                    n == channel_bytes@.len(),
                    idx <= n,
                    offset <= 3,
                    start.len() == old(rgba)@.len(),
                    start.len() == total,
                    forall|i: int|
                        0 <= i < channel_bytes@.len() ==> (#[trigger] img.pixel_index(i) matches Some(j)
                            ==> 4 * j + offset < start.len()),
                    rgba@ == scatter(img, start, channel_bytes@.take(idx as int), offset as int),
                decreases n - idx,
            {
                proof {
                    lemma_scatter_len(img, start, channel_bytes@.take(idx as int), offset as int);
                }
                assert(img.pixel_index(idx as int) matches Some(j) ==> 4 * j + offset < start.len());
                put_pixel_byte(img, rgba, idx, offset, channel_bytes[idx]);
                assert(channel_bytes@.take(idx + 1).drop_last() =~= channel_bytes@.take(idx as int));
                idx += 1;
            }
            assert(channel_bytes@.take(n as int) =~= channel_bytes@);
        },
        ChannelBytes::RleCompressed(channel_bytes) => {
            insert_rle_channel(img, rgba, channel_kind, channel_bytes.as_slice());
        },
    }
}

/// PackBits-decompress a channel and insert it into slot `channel_kind` of
/// the RGBA pixels. A run cut short by the end of the bytes ends the channel.
pub fn insert_rle_channel<T: IntoRgba>(img: &T, rgba: &mut Vec<u8>, channel_kind: PsdChannelKind, channel_bytes: &[u8])
    requires
        img.placement_ok(),
        rgba_offset_of(channel_kind) is Some,
        rle_fits(img, channel_bytes@),
    ensures
        final(rgba)@ == scatter(img,
            old(rgba)@,
            rle_decode(channel_bytes@),
            rgba_offset_of(channel_kind)->0 as int,
        ),
        final(rgba)@.len() == old(rgba)@.len(),
        forall|k: int|
            0 <= k < old(rgba)@.len() && k % 4 != rgba_offset_of(channel_kind)->0 ==> final(rgba)@[k]
                == old(rgba)@[k],
{
    proof {
        lemma_scatter_len(img, rgba@, rle_decode(channel_bytes@), rgba_offset_of(channel_kind)->0 as int);
        lemma_scatter_keeps_other_slots(
            img,
            rgba@,
            rle_decode(channel_bytes@),
            rgba_offset_of(channel_kind)->0 as int,
        );
    }
    let mut cursor = PsdCursor::new(channel_bytes);
    let mut idx: usize = 0;
    let offset = channel_kind.rgba_offset().unwrap();
    let len = cursor.get_ref().len();
    let ghost s = channel_bytes@;
    let ghost d = rle_decode(s);
    let ghost start = rgba@;
    let ghost mut done: Seq<u8> = Seq::empty();
    let mut stop = false;
    assert(s.skip(0) =~= s);
    assert(done + d =~= d);
    while !stop && cursor.position() < len
        invariant
            img.placement_ok(),
            offset <= 3,
            cursor.data() == s,
            len == s.len(),
            0 <= cursor.pos() <= len,
            d == rle_decode(s),
            rle_fits(img, s),
            idx == done.len(),
            stop ==> done == d,
            !stop ==> done + rle_decode(s.skip(cursor.pos())) == d,
            rgba@ == scatter(img, start, done, offset as int),
        decreases len - cursor.pos(), if stop { 0int } else { 1int },
    {
        let ghost p = cursor.pos();
        let ghost rest = s.skip(p);
        let header = cursor.read_i8() as i16;
        assert(rest[0] == s[p]);
        if header == -128 {
            assert(rest.skip(1) =~= s.skip(p + 1));
        } else if header >= 0 {
            let bytes_to_read = (1 + header) as usize;
            if bytes_to_read > len - cursor.position() {
                stop = true;
                assert(done == d);
            } else {
                let run = cursor.read(bytes_to_read);
                assert(rest.skip(header + 2) =~= s.skip(p + header + 2));
                assert(run@ =~= rest.subrange(1, header + 2));
                let ghost done0 = done;
                let ghost after = rle_decode(s.skip(p + header + 2));
                assert(done0 + run@ + after =~= d);
                let mut k: usize = 0;
                while k < bytes_to_read
                    invariant
                        img.placement_ok(),
                        offset <= 3,
                        k <= bytes_to_read,
                        run@.len() == bytes_to_read,
                        done0 + run@ + after == d,
                        rle_fits(img, s),
                        d == rle_decode(s),
                        done == done0 + run@.take(k as int),
                        idx == done.len(),
                        rgba@ == scatter(img, start, done, offset as int),
                    decreases bytes_to_read - k,
                {
                    assert(idx < d.len());
                    assert(img.pixel_index(idx as int) matches Some(j) ==> 4 * j + 3 <= usize::MAX);
                    put_pixel_byte(img, rgba, idx, offset, run[k]);
                    proof {
                        let next = done.push(run@[k as int]);
                        assert(next.drop_last() =~= done);
                        assert(next =~= done0 + run@.take(k + 1));
                        done = next;
                    }
                    idx += 1;
                    k += 1;
                }
                assert(run@.take(bytes_to_read as int) =~= run@);
            }
        } else {
            let repeat = (1 - header) as usize;
            if 1 > len - cursor.position() {
                stop = true;
                assert(done == d);
            } else {
                let byte = *cursor.read_1();
                assert(rest.skip(2) =~= s.skip(p + 2));
                let ghost run = Seq::new(repeat as nat, |i: int| byte);
                let ghost done0 = done;
                let ghost after = rle_decode(s.skip(p + 2));
                assert(run =~= Seq::new((1 - header) as nat, |i: int| rest[1]));
                assert(done0 + run + after =~= d);
                let mut k: usize = 0;
                while k < repeat
                    invariant
                        img.placement_ok(),
                        offset <= 3,
                        k <= repeat,
                        run == Seq::new(repeat as nat, |i: int| byte),
                        done0 + run + after == d,
                        rle_fits(img, s),
                        d == rle_decode(s),
                        done == done0 + run.take(k as int),
                        idx == done.len(),
                        rgba@ == scatter(img, start, done, offset as int),
                    decreases repeat - k,
                {
                    assert(idx < d.len());
                    assert(img.pixel_index(idx as int) matches Some(j) ==> 4 * j + 3 <= usize::MAX);
                    put_pixel_byte(img, rgba, idx, offset, byte);
                    proof {
                        let next = done.push(byte);
                        assert(next.drop_last() =~= done);
                        assert(next =~= done0 + run.take(k + 1));
                        done = next;
                    }
                    idx += 1;
                    k += 1;
                }
                assert(run.take(repeat as int) =~= run);
            }
        }
    }
    if !stop {
        assert(s.skip(len as int) =~= Seq::<u8>::empty());
        assert(done =~= d);
    }
}

/// The number of bytes that the PackBits runs in `bytes` decode to, where it
/// fits in a `usize`.
pub fn rle_decoded_len(bytes: &[u8]) -> (r: Option<usize>)
    ensures
        r matches Some(n) ==> n == rle_decode(bytes@).len(),
        r is None ==> rle_decode(bytes@).len() > usize::MAX,
{
    let len = bytes.len();
    let mut p: usize = 0;
    let mut total: usize = 0;
    let ghost s = bytes@;
    assert(s.skip(0) =~= s);
    while p < len
        invariant
            s == bytes@,
            len == s.len(),
            p <= len,
            rle_decode(s).len() == total + rle_decode(s.skip(p as int)).len(),
        decreases len - p,
    {
        let ghost rest = s.skip(p as int);
        let header = bytes[p];
        let h: i16 = if header < 128 {
            header as i16
        } else {
            header as i16 - 256
        };
        assert(h == run_header(rest[0]));
        if h == -128 {
            assert(rest.skip(1) =~= s.skip(p + 1));
            p += 1;
        } else if h >= 0 {
            let run = (h + 1) as usize;
            if len - p < run + 1 {
                return Some(total);
            }
            assert(rest.skip(h + 2) =~= s.skip(p + h + 2));
            if total > usize::MAX - run {
                return None;
            }
            total += run;
            p += run + 1;
        } else {
            if len - p < 2 {
                return Some(total);
            }
            let run = (1 - h) as usize;
            assert(rest.skip(2) =~= s.skip(p + 2));
            if total > usize::MAX - run {
                return None;
            }
            total += run;
            p += 2;
        }
    }
    assert(s.skip(len as int) =~= Seq::<u8>::empty());
    Some(total)
}

/// Whether channel `c` can be written to slot `off` of an RGBA buffer of
/// `total` bytes, as `channel_fits` states.
pub fn channel_fits_check<T: IntoRgba>(img: &T, c: &ChannelBytes, off: usize, total: usize) -> (r: bool)
    requires
        img.placement_ok(),
        off <= 3,
    ensures
        r == channel_fits(img, c@, off as int, total as int),
{
    match c {
        ChannelBytes::RawData(v) => {
            let n = v.len();
            let mut i: usize = 0;
            while i < n
                invariant
                    img.placement_ok(),
                    c@ == ChannelData::RawData(v@),
                    n == v@.len(),
                    i <= n,
                    forall|k: int|
                        0 <= k < i ==> (#[trigger] img.pixel_index(k) matches Some(j) ==> 4 * j
                            + off < total),
                decreases n - i,
            {
                if let Some(j) = img.rgba_idx(i) {
                    if (j as u128) * 4 + (off as u128) >= (total as u128) {
                        assert(img.pixel_index(i as int) == Some(j));
                        assert(c@ == ChannelData::RawData(v@));
                        assert(!channel_fits(img, c@, off as int, total as int));
                        return false;
                    }
                }
                i += 1;
            }
            true
        },
        ChannelBytes::RleCompressed(v) => {
            match rle_decoded_len(v.as_slice()) {
                None => false,
                Some(n) => {
                    let mut i: usize = 0;
                    while i < n
                        invariant
                            img.placement_ok(),
                            c@ == ChannelData::RleCompressed(v@),
                            n == rle_decode(v@).len(),
                            i <= n,
                            forall|k: int|
                                0 <= k < i ==> (#[trigger] img.pixel_index(k) matches Some(j) ==> 4
                                    * j + 3 <= usize::MAX),
                        decreases n - i,
                    {
                        if let Some(j) = img.rgba_idx(i) {
                            if (j as u128) * 4 + 3 > (usize::MAX as u128) {
                                assert(img.pixel_index(i as int) == Some(j));
                                assert(c@ == ChannelData::RleCompressed(v@));
                                assert(!rle_fits(img, v@));
                                return false;
                            }
                        }
                        i += 1;
                    }
                    true
                },
            }
        },
    }
}

/// Whether the RGBA image of `img` can be generated, as `rgba_ok` states,
/// for an image whose placement is known to work.
pub fn rgba_fits_check<T: IntoRgba>(img: &T) -> (r: bool)
    requires
        img.placement_ok(),
    ensures
        r == rgba_ok(img),
{
    let w = img.psd_width();
    let h = img.psd_height();
    assert((w as u128) * (h as u128) * 4 <= 0x4_0000_0000_0000_0000) by (nonlinear_arith)
        requires
            w <= u32::MAX,
            h <= u32::MAX,
    ;
    if (w as u128) * (h as u128) * 4 > (u32::MAX as u128) {
        return false;
    }
    let total = (w as usize) * (h as usize) * 4;
    assert(total == rgba_len(img));
    let red = img.red();
    if !channel_fits_check(img, red, 0, total) {
        return false;
    }
    let green_ok = match img.green() {
        Some(g) => channel_fits_check(img, g, 1, total),
        None => channel_fits_check(img, red, 1, total),
    };
    if !green_ok {
        return false;
    }
    let blue_ok = match img.blue() {
        Some(b) => channel_fits_check(img, b, 2, total),
        None => channel_fits_check(img, red, 2, total),
    };
    if !blue_ok {
        return false;
    }
    match img.alpha() {
        Some(a) => channel_fits_check(img, a, 3, total),
        None => true,
    }
}

} // verus!
