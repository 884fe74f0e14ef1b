//! Reading layer records, and the channel image data that follows them.
use vstd::prelude::*;

use crate::channel::{
    channel_kind_from_id, compression_from_code, ChannelBytes, ChannelData, PsdChannelCompression,
    PsdChannelKind,
};
use crate::cursor::{
    be16, be32, signed16, signed32, unicode_string_ok, unicode_units, PsdCursor,
};
use crate::file_header::bytes_equal;
use crate::image_data::copy_range;
use crate::layer::{
    blend_mode_from_key, divider_from_code, key_is, record_height_ok, BlendMode, GroupDivider,
    LayerChannels, LayerRecord, LayerRecordView, PsdLayerError,
};
use crate::text::{string_from_utf8_lossy, utf16_decode, utf8_lossy};

verus! {

/// One of the possible additional layer block signatures: '8BIM'.
pub const SIGNATURE_EIGHT_BIM: [u8; 4] = [56, 66, 73, 77];

/// One of the possible additional layer block signatures: '8B64'.
pub const SIGNATURE_EIGHT_B64: [u8; 4] = [56, 66, 54, 52];

/// Key of `Unicode layer name (Photoshop 5.0)`, "luni".
pub const KEY_UNICODE_LAYER_NAME: [u8; 4] = [108, 117, 110, 105];

/// Key of `Section divider setting (Photoshop 6.0)`, "lsct".
pub const KEY_SECTION_DIVIDER_SETTING: [u8; 4] = [108, 115, 99, 116];

/// The channel information of a record: `n` entries of a 2-byte channel id and
/// a 4-byte length (of which the first two bytes are the compression), from
/// `q` on. `None` where reading runs past the bytes or a length is below 2;
/// an error at the first unknown channel id.
pub open spec fn channel_infos(s: Seq<u8>, q: int, n: int) -> Option<
    Result<Seq<(PsdChannelKind, u32)>, PsdLayerError>,
>
    decreases n,
{
    if n <= 0 {
        Some(Ok(Seq::empty()))
    } else {
        match channel_infos(s, q, n - 1) {
            Some(Ok(v)) => {
                let at = q + 6 * (n - 1);
                if at + 2 > s.len() {
                    None
                } else {
                    let id = signed16(be16(s, at)) as i16;
                    match channel_kind_from_id(id) {
                        None => Some(Err(PsdLayerError::InvalidChannel { channel_id: id })),
                        Some(k) => if at + 6 > s.len() || be32(s, at + 2) < 2 {
                            None
                        } else {
                            Some(Ok(v.push((k, (be32(s, at + 2) - 2) as u32))))
                        },
                    }
                }
            },
            other => other,
        }
    }
}

/// The four bytes at `q` open an additional layer information block.
pub open spec fn is_extra_signature(k: Seq<u8>) -> bool {
    k == seq![56u8, 66, 73, 77] || k == seq![56u8, 66, 54, 52]
}

/// The additional layer information blocks from `q` on, starting from the
/// layer name `name` and divider `divider`: a "luni" block replaces the name
/// with its Unicode string, an "lsct" block sets the divider, and other blocks
/// are skipped. The result is the final name, divider and position; `None`
/// where reading runs past the bytes.
pub open spec fn extra_info(
    s: Seq<u8>,
    q: int,
    name: Seq<char>,
    divider: Option<GroupDivider>,
) -> Option<(Seq<char>, Option<GroupDivider>, int)>
    decreases s.len() - q,
{
    if q < 0 || q + 4 > s.len() {
        None
    } else if !is_extra_signature(s.subrange(q, q + 4)) {
        Some((name, divider, q))
    } else if q + 12 > s.len() {
        None
    } else {
        let key = s.subrange(q + 4, q + 8);
        let l = be32(s, q + 8);
        let r = q + 12;
        if key_is(key, 'l', 'u', 'n', 'i') {
            if !unicode_string_ok(s, r, 1) || r + l + 4 > s.len() {
                None
            } else {
                extra_info(s, r + l, utf16_decode(unicode_units(s, r)), divider)
            }
        } else if key_is(key, 'l', 's', 'c', 't') {
            let r2 = r + 4 + (if l >= 12 { 8int } else { 0int }) + (if l >= 16 { 4int } else { 0int });
            if r2 > s.len() {
                None
            } else {
                extra_info(s, r2, name, divider_from_code(signed32(be32(s, r)) as i32))
            }
        } else {
            if r + l > s.len() {
                None
            } else {
                extra_info(s, r + l, name, divider)
            }
        }
    }
}

/// Read the channel information of a record.
fn read_channel_infos(cursor: &mut PsdCursor, n: u16) -> (r: Result<
    Vec<(PsdChannelKind, u32)>,
    PsdLayerError,
>)
    requires
        channel_infos(old(cursor).data(), old(cursor).pos(), n as int) is Some,
    ensures
        final(cursor).data() == old(cursor).data(),
        channel_infos(old(cursor).data(), old(cursor).pos(), n as int) == Some(
            match r {
                Ok(v) => Ok::<Seq<(PsdChannelKind, u32)>, PsdLayerError>(v@),
                Err(e) => Err(e),
            },
        ),
        r is Ok ==> final(cursor).pos() == old(cursor).pos() + 6 * n,
{
    let ghost s = cursor.data();
    let ghost q = cursor.pos();
    let mut channel_data_lengths: Vec<(PsdChannelKind, u32)> = Vec::new();
    let mut i: u16 = 0;
    while i < n
        invariant
            cursor.data() == s,
            s == old(cursor).data(),
            q == old(cursor).pos(),
            i <= n,
            cursor.pos() == q + 6 * i,
            channel_infos(s, q, n as int) is Some,
            channel_infos(s, q, i as int) == Some(
                Ok::<Seq<(PsdChannelKind, u32)>, PsdLayerError>(channel_data_lengths@),
            ),
        decreases n - i,
    {
        proof {
            lemma_channel_infos_prefix(s, q, i + 1, n as int);
        }
        let channel_id = cursor.read_i16();
        let kind = match PsdChannelKind::new(channel_id) {
            Some(k) => k,
            None => {
                proof {
                    lemma_channel_infos_error_stays(s, q, i + 1, n as int);
                }
                return Err(PsdLayerError::InvalidChannel { channel_id });
            },
        };
        let channel_length = cursor.read_u32();
        let channel_data_length = channel_length - 2;
        channel_data_lengths.push((kind, channel_data_length));
        i += 1;
    }
    Ok(channel_data_lengths)
}

/// Where reading `n` channel entries does not fail, neither does reading fewer.
proof fn lemma_channel_infos_prefix(s: Seq<u8>, q: int, m: int, n: int)
    requires
        0 <= m <= n,
        channel_infos(s, q, n) is Some,
    ensures
        channel_infos(s, q, m) is Some,
        channel_infos(s, q, m) matches Some(Err(e)) ==> channel_infos(s, q, n) == Some(
            Err::<Seq<(PsdChannelKind, u32)>, PsdLayerError>(e),
        ),
    decreases n - m,
{
    if m < n {
        assert(channel_infos(s, q, n - 1) is Some);
        assert(channel_infos(s, q, n - 1) matches Some(Err(e)) ==> channel_infos(s, q, n)
            == channel_infos(s, q, n - 1));
        lemma_channel_infos_prefix(s, q, m, n - 1);
    }
}

/// An error among the first `m` entries is the outcome of reading all `n`.
proof fn lemma_channel_infos_error_stays(s: Seq<u8>, q: int, m: int, n: int)
    requires
        0 <= m <= n,
        channel_infos(s, q, n) is Some,
        channel_infos(s, q, m) is Some,
        channel_infos(s, q, m)->0 is Err,
    ensures
        channel_infos(s, q, n) == channel_infos(s, q, m),
{
    lemma_channel_infos_prefix(s, q, m, n);
}

/// Read additional layer information blocks until a block without a known
/// signature follows.
fn read_extra_info(cursor: &mut PsdCursor, name: String, divider: Option<GroupDivider>) -> (r: (
    String,
    Option<GroupDivider>,
))
    requires
        extra_info(old(cursor).data(), old(cursor).pos(), name@, divider) is Some,
    ensures
        final(cursor).data() == old(cursor).data(),
        extra_info(old(cursor).data(), old(cursor).pos(), name@, divider) == Some(
            (r.0@, r.1, final(cursor).pos()),
        ),
{
    let ghost s = cursor.data();
    let ghost target = extra_info(cursor.data(), cursor.pos(), name@, divider);
    let ghost name0 = name@;
    let ghost pos0 = cursor.pos();
    let mut current_name = name;
    let mut divider_type = divider;
    let total = cursor.get_ref().len();
    loop
        invariant
            cursor.data() == s,
            s == old(cursor).data(),
            total == s.len(),
            target is Some,
            pos0 == old(cursor).pos(),
            target == extra_info(s, pos0, name0, divider),
            extra_info(s, cursor.pos(), current_name@, divider_type) == target,
            name0 == name@,
        decreases s.len() - cursor.pos(),
    {
        let ghost q = cursor.pos();
        proof {
            cursor.lemma_pos_bounds();
        }
        let signature = cursor.peek_n::<4>();
        if !bytes_equal(signature, &SIGNATURE_EIGHT_BIM) && !bytes_equal(signature, &SIGNATURE_EIGHT_B64) {
            assert(signature@ != seq![56u8, 66, 73, 77]);
            assert(signature@ != seq![56u8, 66, 54, 52]);
            assert(!is_extra_signature(s.subrange(q, q + 4)));
            return (current_name, divider_type);
        }
        let _signature = cursor.read_n::<4>();
        let key = cursor.read_n::<4>();
        let additional_layer_info_len = cursor.read_u32();
        assert(key@ == s.subrange(q + 4, q + 8));
        if bytes_equal(key, &KEY_UNICODE_LAYER_NAME) {
            assert(key_is(key@, 'l', 'u', 'n', 'i'));
            let pos = cursor.position();
            current_name = cursor.read_unicode_string_padding(1);
            cursor.seek(pos + additional_layer_info_len as usize);
        } else if bytes_equal(key, &KEY_SECTION_DIVIDER_SETTING) {
            assert(key@ != seq![108u8, 117, 110, 105]);
            assert(key_is(key@, 'l', 'u', 'n', 'i') ==> key@ =~= seq![108u8, 117, 110, 105]);
            assert(key_is(key@, 'l', 's', 'c', 't'));
            divider_type = GroupDivider::match_divider(cursor.read_i32());
            if additional_layer_info_len >= 12 {
                let _signature = cursor.read_n::<4>();
                let _key = cursor.read_n::<4>();
            }
            if additional_layer_info_len >= 16 {
                cursor.read_n::<4>();
            }
        } else {
            assert(key@ != seq![108u8, 117, 110, 105]);
            assert(key@ != seq![108u8, 115, 99, 116]);
            assert(key_is(key@, 'l', 'u', 'n', 'i') ==> key@ =~= seq![108u8, 117, 110, 105]);
            assert(key_is(key@, 'l', 's', 'c', 't') ==> key@ =~= seq![108u8, 115, 99, 116]);
            cursor.read(additional_layer_info_len as usize);
        }
    }
}

/// A coordinate of a layer's rectangle made zero-indexed: one less, unless zero.
pub open spec fn zero_indexed(v: int) -> int {
    if v == 0 {
        0
    } else {
        v - 1
    }
}

/// The padding after a layer name of `name_len` bytes, so that the length
/// byte and the name take a multiple of 4 bytes.
pub open spec fn name_padding(name_len: u8) -> int {
    (4 - (name_len + 1) % 4) % 4
}

/// The record, with the position after it, that the layer record at `p` in `s`
/// holds; or the error at which reading it stops. `None` where reading runs
/// past the bytes, where a zero-indexing or a channel length would underflow,
/// or where a Unicode name is not valid UTF-16.
pub open spec fn layer_record_at(s: Seq<u8>, p: int) -> Option<(Result<LayerRecordView, PsdLayerError>, int)> {
    let top = signed32(be32(s, p));
    let left = signed32(be32(s, p + 4));
    let bottom = signed32(be32(s, p + 8));
    let right = signed32(be32(s, p + 12));
    let n = be16(s, p + 16);
    let q = p + 18 + 6 * n;
    if p < 0 || p + 18 > s.len() || bottom == i32::MIN || right == i32::MIN {
        None
    } else {
        match channel_infos(s, p + 18, n) {
            None => None,
            Some(Err(e)) => Some((Err(e), 0)),
            Some(Ok(lens)) => {
                if q + 8 > s.len() {
                    None
                } else {
                    match blend_mode_from_key(s.subrange(q + 4, q + 8)) {
                        None => Some(
                            (
                                Err(
                                    PsdLayerError::UnknownBlendingMode {
                                        mode: [s[q + 4], s[q + 5], s[q + 6], s[q + 7]],
                                    },
                                ),
                                0,
                            ),
                        ),
                        Some(blend_mode) => {
                            let q2 = q + 20 + be32(s, q + 16);
                            let q3 = q2 + 4 + be32(s, q2);
                            let name_len = s[q3];
                            let q4 = q3 + 1 + name_len + name_padding(name_len);
                            if q + 20 > s.len() || q2 + 4 > s.len() || q3 + 1 > s.len() || q4
                                > s.len() {
                                None
                            } else {
                                match extra_info(
                                    s,
                                    q4,
                                    utf8_lossy(s.subrange(q3 + 1, q3 + 1 + name_len)),
                                    None,
                                ) {
                                    None => None,
                                    Some((name, divider_type, end)) => Some(
                                        (
                                            Ok(
                                                LayerRecordView {
                                                    name,
                                                    channel_data_lengths: lens,
                                                    top: top as i32,
                                                    left: left as i32,
                                                    bottom: zero_indexed(bottom) as i32,
                                                    right: zero_indexed(right) as i32,
                                                    visible: s[q + 10] & 2 != 0,
                                                    opacity: s[q + 8],
                                                    clipping_base: s[q + 9] == 0,
                                                    blend_mode,
                                                    divider_type,
                                                },
                                            ),
                                            end,
                                        ),
                                    ),
                                }
                            }
                        },
                    }
                }
            },
        }
    }
}

/// The outcome of a read, as a mathematical value.
pub open spec fn record_outcome(r: Result<LayerRecord, PsdLayerError>) -> Result<LayerRecordView, PsdLayerError> {
    match r {
        Ok(rec) => Ok(rec@),
        Err(e) => Err(e),
    }
}

/// Read bytes, starting from the cursor, until we've processed all of the
/// data for a layer in the layer records section: its rectangle, channel
/// information, blend mode, opacity, clipping, visibility and name, with the
/// additional layer information blocks that follow (a Unicode name and a
/// section divider are kept; the others are skipped).
pub fn read_layer_record(cursor: &mut PsdCursor) -> (r: Result<LayerRecord, PsdLayerError>)
    requires
        layer_record_at(old(cursor).data(), old(cursor).pos()) is Some,
    ensures
        final(cursor).data() == old(cursor).data(),
        layer_record_at(old(cursor).data(), old(cursor).pos()) matches Some((res, end)) && record_outcome(r)
            == res && (r is Ok ==> final(cursor).pos() == end),
{
    let ghost s = cursor.data();
    let ghost p = cursor.pos();
    let total = cursor.get_ref().len();
    let top = cursor.read_i32();
    let left = cursor.read_i32();
    let bottom = cursor.read_i32();
    let bottom = if bottom == 0 { 0 } else { bottom - 1 };
    let right = cursor.read_i32();
    let right = if right == 0 { 0 } else { right - 1 };
    let channel_count = cursor.read_u16();
    let channel_data_lengths = match read_channel_infos(cursor, channel_count) {
        Ok(v) => v,
        Err(e) => {
            assert(layer_record_at(s, p) == Some((Err::<LayerRecordView, PsdLayerError>(e), 0int)));
            return Err(e);
        },
    };
    let ghost q = cursor.pos();
    assert(q == p + 18 + 6 * be16(s, p + 16));
    let _blend_signature = cursor.read_n::<4>();
    let key = cursor.read_n::<4>();
    let blend_mode = match BlendMode::match_mode(key) {
        Some(v) => v,
        None => {
            let mode: [u8; 4] = [key[0], key[1], key[2], key[3]];
            assert(key@ == s.subrange(q + 4, q + 8));
            assert(layer_record_at(s, p) == Some((Err::<LayerRecordView, PsdLayerError>(PsdLayerError::UnknownBlendingMode { mode }), 0int)));
            return Err(PsdLayerError::UnknownBlendingMode { mode });
        },
    };
    let opacity = cursor.read_u8();
    let clipping_base = cursor.read_u8();
    let clipping_base = clipping_base == 0;
    let visible = cursor.read_u8() & 2 != 0;
    cursor.read_1();
    cursor.read_n::<4>();
    let layer_mask_data_len = cursor.read_u32();
    cursor.read(layer_mask_data_len as usize);
    let layer_blending_range_data_len = cursor.read_u32();
    cursor.read(layer_blending_range_data_len as usize);
    let name_len = cursor.read_u8();
    let name = cursor.read(name_len as usize);
    let name = string_from_utf8_lossy(name);
    let bytes_mod_4 = (name_len as u32 + 1) % 4;
    let padding = (4 - bytes_mod_4) % 4;
    cursor.read(padding as usize);
    assert(key@ == s.subrange(q + 4, q + 8));
    let ghost q3 = q + 20 + be32(s, q + 16) + 4 + be32(s, q + 20 + be32(s, q + 16));
    assert(name@ == utf8_lossy(s.subrange(q3 + 1, q3 + 1 + name_len)));
    assert(padding == name_padding(name_len));
    let ghost name0 = name@;
    let (name, divider_type) = read_extra_info(cursor, name, None);
    assert(extra_info(s, q3 + 1 + name_len + name_padding(name_len), name0, None) == Some((name@, divider_type, cursor.pos())));
    assert(channel_infos(s, p + 18, be16(s, p + 16)) == Some(Ok::<Seq<(PsdChannelKind, u32)>, PsdLayerError>(channel_data_lengths@)));
    assert(blend_mode_from_key(s.subrange(q + 4, q + 8)) == Some(blend_mode));
    assert(top == signed32(be32(s, p)));
    assert(bottom == zero_indexed(signed32(be32(s, p + 8))));
    assert(opacity == s[q + 8]);
    assert(clipping_base == (s[q + 9] == 0));
    assert(visible == (s[q + 10] & 2 != 0));
    Ok(
        LayerRecord::new(
            name,
            channel_data_lengths,
            top,
            left,
            bottom,
            right,
            visible,
            opacity,
            clipping_base,
            blend_mode,
            divider_type,
        ),
    )
}

/// The channel image data of a layer whose channel information is `lens`,
/// from `p` on: per channel a 2-byte compression code, then its bytes (an RLE
/// channel's first `2 * scanlines` bytes, its scan line counts, are left out).
/// The channels by kind and the position after them; or the first invalid
/// compression code. `None` where reading runs past the bytes, or meets a zip
/// compressed channel.
pub open spec fn layer_channels_at(
    s: Seq<u8>,
    p: int,
    lens: Seq<(PsdChannelKind, u32)>,
    scanlines: int,
) -> Option<(Result<Map<PsdChannelKind, ChannelData>, PsdLayerError>, int)>
    decreases lens.len(),
{
    if lens.len() == 0 {
        Some((Ok(Map::empty()), p))
    } else {
        match layer_channels_at(s, p, lens.drop_last(), scanlines) {
            Some((Ok(m), q)) => {
                let kind = lens.last().0;
                let len = lens.last().1;
                let code = be16(s, q) as u16;
                if q + 2 > s.len() {
                    None
                } else {
                    match compression_from_code(code) {
                        None => Some((Err(PsdLayerError::InvalidCompression { compression: code }), 0)),
                        Some(c) => {
                            let c = if len > 0 { c } else { PsdChannelCompression::RawData };
                            let data = s.subrange(q + 2, q + 2 + len);
                            if q + 2 + len > s.len() {
                                None
                            } else {
                                match c {
                                    PsdChannelCompression::RawData => Some(
                                        (Ok(m.insert(kind, ChannelData::RawData(data))), q + 2 + len),
                                    ),
                                    PsdChannelCompression::RleCompressed => if 2 * scanlines > len {
                                        None
                                    } else {
                                        Some(
                                            (
                                                Ok(
                                                    m.insert(
                                                        kind,
                                                        ChannelData::RleCompressed(data.skip(2 * scanlines)),
                                                    ),
                                                ),
                                                q + 2 + len,
                                            ),
                                        )
                                    },
                                    _ => None,
                                }
                            }
                        },
                    }
                }
            },
            other => other,
        }
    }
}

/// Where reading the channels of `n` entries does not fail, neither does
/// reading fewer; an error among fewer is the error of all.
proof fn lemma_layer_channels_prefix(s: Seq<u8>, p: int, lens: Seq<(PsdChannelKind, u32)>, m: int, sc: int)
    requires
        0 <= m <= lens.len(),
        layer_channels_at(s, p, lens, sc) is Some,
    ensures
        layer_channels_at(s, p, lens.take(m), sc) is Some,
        layer_channels_at(s, p, lens.take(m), sc) matches Some((Err(e), _)) ==> layer_channels_at(
            s,
            p,
            lens,
            sc,
        ) == layer_channels_at(s, p, lens.take(m), sc),
    decreases lens.len() - m,
{
    if m < lens.len() {
        let l = lens.drop_last();
        assert(layer_channels_at(s, p, l, sc) is Some);
        assert(l.take(m) =~= lens.take(m));
        lemma_layer_channels_prefix(s, p, l, m, sc);
    } else {
        assert(lens.take(m) =~= lens);
    }
}

/// Channels that read end no earlier than they start, within the bytes.
proof fn lemma_channels_end(s: Seq<u8>, p: int, lens: Seq<(PsdChannelKind, u32)>, scanlines: int)
    requires
        0 <= p,
    ensures
        layer_channels_at(s, p, lens, scanlines) matches Some((Ok(m), e)) ==> p <= e && (lens.len()
            > 0 ==> e <= s.len()),
    decreases lens.len(),
{
    if lens.len() > 0 {
        lemma_channels_end(s, p, lens.drop_last(), scanlines);
    }
}

/// Of channels that read, the last one, where it is RLE compressed and not
/// empty, holds exactly its bytes after its compression code and its
/// scan line counts (two bytes per scan line), up to where the channels end;
/// where it is raw (or empty), it holds all its bytes after its compression
/// code.
pub proof fn lemma_rle_channel_bytes(
    s: Seq<u8>,
    p: int,
    lens: Seq<(PsdChannelKind, u32)>,
    scanlines: int,
)
    requires
        lens.len() > 0,
        0 <= p,
        0 <= scanlines,
    ensures
        layer_channels_at(s, p, lens, scanlines) matches Some((Ok(m), e)) ==> ({
            let kind = lens.last().0;
            let len = lens.last().1 as int;
            let q = e - 2 - len;
            &&& be16(s, q) == 1 && len > 0 ==> q + 2 + 2 * scanlines <= e && m[kind]
                == ChannelData::RleCompressed(s.subrange(q + 2 + 2 * scanlines, e))
            &&& (be16(s, q) == 0 || len == 0) ==> m[kind] == ChannelData::RawData(
                s.subrange(q + 2, e),
            )
        }),
{
    if let Some((Ok(m), e)) = layer_channels_at(s, p, lens, scanlines) {
        let kind = lens.last().0;
        let len = lens.last().1 as int;
        if let Some((Ok(m0), q)) = layer_channels_at(s, p, lens.drop_last(), scanlines) {
            lemma_channels_end(s, p, lens.drop_last(), scanlines);
            assert(e == q + 2 + len);
            if be16(s, q) == 1 && len > 0 {
                let data = s.subrange(q + 2, q + 2 + len);
                assert(data.skip(2 * scanlines) =~= s.subrange(q + 2 + 2 * scanlines, e));
            }
        }
    }
}

/// Reads the channel image data of a layer.
pub fn read_layer_channels(
    cursor: &mut PsdCursor,
    channel_data_lengths: &Vec<(PsdChannelKind, u32)>,
    scanlines: usize,
) -> (r: Result<LayerChannels, PsdLayerError>)
    requires
        layer_channels_at(old(cursor).data(), old(cursor).pos(), channel_data_lengths@, scanlines as int) is Some,
    ensures
        final(cursor).data() == old(cursor).data(),
        layer_channels_at(old(cursor).data(), old(cursor).pos(), channel_data_lengths@, scanlines as int)
            matches Some((res, end)) && (match r {
            Ok(c) => res == Ok::<Map<PsdChannelKind, ChannelData>, PsdLayerError>(c@)
                && final(cursor).pos() == end,
            Err(e) => res == Err::<Map<PsdChannelKind, ChannelData>, PsdLayerError>(e),
        }),
{
    let ghost s = cursor.data();
    let ghost p = cursor.pos();
    let ghost lens = channel_data_lengths@;
    let mut channels = LayerChannels::new();
    let n = channel_data_lengths.len();
    let mut i: usize = 0;
    assert(lens.take(0) =~= Seq::<(PsdChannelKind, u32)>::empty());
    while i < n
        invariant
            cursor.data() == s,
            s == old(cursor).data(),
            p == old(cursor).pos(),
            lens == channel_data_lengths@,
            n == lens.len(),
            i <= n,
            layer_channels_at(s, p, lens, scanlines as int) is Some,
            layer_channels_at(s, p, lens.take(i as int), scanlines as int) == Some(
                (Ok::<Map<PsdChannelKind, ChannelData>, PsdLayerError>(channels@), cursor.pos()),
            ),
        decreases n - i,
    {
        proof {
            lemma_layer_channels_prefix(s, p, lens, i + 1, scanlines as int);
            assert(lens.take(i + 1).drop_last() =~= lens.take(i as int));
            assert(lens.take(i + 1).last() == lens[i as int]);
        }
        let (channel_kind, channel_length) = channel_data_lengths[i];
        let ghost q0 = cursor.pos();
        let ghost next = layer_channels_at(s, p, lens.take(i + 1), scanlines as int);
        assert(next is Some);
        let compression = cursor.read_u16();
        let compression = match PsdChannelCompression::new(compression) {
            Some(c) => c,
            None => return Err(PsdLayerError::InvalidCompression { compression }),
        };
        let compression = if channel_length > 0 {
            compression
        } else {
            PsdChannelCompression::RawData
        };
        let ghost q = cursor.pos();
        proof {
            cursor.lemma_pos_bounds();
        }
        let channel_data = cursor.read(channel_length as usize);
        let channel_bytes = match compression {
            PsdChannelCompression::RawData => ChannelBytes::RawData(
                copy_range(channel_data, 0, channel_data.len()),
            ),
            PsdChannelCompression::RleCompressed => {
                assert(2 * scanlines <= channel_length);
                let skip = 2 * scanlines;
                let data = copy_range(channel_data, skip, channel_data.len());
                assert(data@ =~= s.subrange(q, q + channel_length).skip(2 * scanlines));
                ChannelBytes::RleCompressed(data)
            },
            _ => {
                assert(false);
                ChannelBytes::RawData(Vec::new())
            },
        };
        assert(channel_data@.subrange(0, channel_data@.len() as int) =~= channel_data@);
        channels.insert(channel_kind, channel_bytes);
        i += 1;
    }
    assert(lens.take(n as int) =~= lens);
    Ok(channels)
}

} // verus!
