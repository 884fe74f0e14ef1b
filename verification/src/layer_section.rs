//! The layer and mask information section: the layers of a PSD, and the
//! groups they are nested in.
use vstd::prelude::*;

use core::ops::Range;

use crate::channel::{ChannelData, PsdChannelKind};
use crate::containers::{layer_views, reverse_vec, Groups, Layers};
use crate::cursor::{be16, be32, signed16, PsdCursor};
use crate::layer::{
    properties_of, record_height_ok, GroupDivider, LayerChannels, LayerRecord, LayerRecordView,
    PsdGroup, PsdGroupView, PsdLayer, PsdLayerError, PsdLayerView,
};
use crate::layer_records::{layer_channels_at, layer_record_at, read_layer_channels, read_layer_record};

verus! {

/// The layer records from `p` on, `n` of them, with the position after them;
/// or the first error. `None` where reading one would fail.
pub open spec fn layer_records_at(s: Seq<u8>, p: int, n: int) -> Option<
    (Result<Seq<LayerRecordView>, PsdLayerError>, int),
>
    decreases n,
{
    if n <= 0 {
        Some((Ok(Seq::empty()), p))
    } else {
        match layer_records_at(s, p, n - 1) {
            Some((Ok(v), q)) => match layer_record_at(s, q) {
                None => None,
                Some((Err(e), _)) => Some((Err(e), 0)),
                Some((Ok(r), q2)) => Some((Ok(v.push(r)), q2)),
            },
            other => other,
        }
    }
}

/// The number of scan lines of a record's channels: its height as a `usize`.
pub open spec fn scanlines_of(r: LayerRecordView) -> int {
    ((r.bottom - r.top + 1) as usize) as int
}

/// The channel image data of each of `recs`, in turn, from `p` on; or the
/// first error. `None` where reading would fail.
pub open spec fn all_channels_at(s: Seq<u8>, p: int, recs: Seq<LayerRecordView>) -> Option<
    (Result<Seq<Map<PsdChannelKind, ChannelData>>, PsdLayerError>, int),
>
    decreases recs.len(),
{
    if recs.len() == 0 {
        Some((Ok(Seq::empty()), p))
    } else {
        match all_channels_at(s, p, recs.drop_last()) {
            Some((Ok(v), q)) => {
                let r = recs.last();
                if !record_height_ok(r) {
                    None
                } else {
                    match layer_channels_at(s, q, r.channel_data_lengths, scanlines_of(r)) {
                        None => None,
                        Some((Err(e), _)) => Some((Err(e), 0)),
                        Some((Ok(m), q2)) => Some((Ok(v.push(m)), q2)),
                    }
                }
            },
            other => other,
        }
    }
}

/// How many of `recs` are bounding section dividers: how many groups close.
pub open spec fn bounding_count(recs: Seq<LayerRecordView>) -> int
    decreases recs.len(),
{
    if recs.len() == 0 {
        0
    } else {
        bounding_count(recs.drop_last()) + if recs.last().divider_type == Some(
            GroupDivider::BoundingSection,
        ) {
            1int
        } else {
            0int
        }
    }
}

/// The records of the layers with their channels, in the order of the file
/// reversed: the file stores them from the bottom layer up (a group's
/// bounding divider comes before its layers, and its folder record after
/// them), so this gives them from the top layer down.
pub open spec fn records_top_down(recs: Seq<LayerRecordView>, chans: Seq<Map<PsdChannelKind, ChannelData>>) -> Seq<
    (LayerRecordView, Map<PsdChannelKind, ChannelData>),
> {
    Seq::new(recs.len(), |i: int| (recs[recs.len() - 1 - i], chans[recs.len() - 1 - i]))
}

/// What reading `n` layer records and then their channels from `p` gives:
/// the number of groups and the records with their channels, top layer
/// first; or the first error. `None` where reading would fail.
pub open spec fn read_layer_records_outcome(s: Seq<u8>, p: int, n: int) -> Option<
    (Result<(int, Seq<(LayerRecordView, Map<PsdChannelKind, ChannelData>)>), PsdLayerError>, int),
> {
    match layer_records_at(s, p, n) {
        None => None,
        Some((Err(e), _)) => Some((Err(e), 0)),
        Some((Ok(recs), q)) => match all_channels_at(s, q, recs) {
            None => None,
            Some((Err(e), _)) => Some((Err(e), 0)),
            Some((Ok(chans), q2)) => if chans.len() == recs.len() {
                Some((Ok((bounding_count(recs), records_top_down(recs, chans))), q2))
            } else {
                None
            },
        },
    }
}

/// The views of records.
pub open spec fn record_views(v: Seq<LayerRecord>) -> Seq<LayerRecordView> {
    v.map_values(|r: LayerRecord| r@)
}

/// The views of channel sets.
pub open spec fn channels_views(v: Seq<LayerChannels>) -> Seq<Map<PsdChannelKind, ChannelData>> {
    v.map_values(|c: LayerChannels| c@)
}

/// The views of records with their channels.
pub open spec fn pairs_view(v: Seq<(LayerRecord, LayerChannels)>) -> Seq<
    (LayerRecordView, Map<PsdChannelKind, ChannelData>),
> {
    v.map_values(|x: (LayerRecord, LayerChannels)| (x.0@, x.1@))
}

/// Where reading `n` records does not fail, neither does reading fewer; an
/// error among fewer is the error of all.
proof fn lemma_layer_records_prefix(s: Seq<u8>, p: int, m: int, n: int)
    requires
        0 <= m <= n,
        layer_records_at(s, p, n) is Some,
    ensures
        layer_records_at(s, p, m) is Some,
        layer_records_at(s, p, m) matches Some((Err(e), _)) ==> layer_records_at(s, p, n)
            == layer_records_at(s, p, m),
    decreases n - m,
{
    if m < n {
        assert(layer_records_at(s, p, n - 1) is Some);
        lemma_layer_records_prefix(s, p, m, n - 1);
    }
}

/// Where reading the channels of all records does not fail, neither does
/// reading those of the first `m`; an error among them is the error of all.
proof fn lemma_all_channels_prefix(s: Seq<u8>, p: int, recs: Seq<LayerRecordView>, m: int)
    requires
        0 <= m <= recs.len(),
        all_channels_at(s, p, recs) is Some,
    ensures
        all_channels_at(s, p, recs.take(m)) is Some,
        all_channels_at(s, p, recs.take(m)) matches Some((Err(e), _)) ==> all_channels_at(s, p, recs)
            == all_channels_at(s, p, recs.take(m)),
    decreases recs.len() - m,
{
    if m < recs.len() {
        let l = recs.drop_last();
        assert(all_channels_at(s, p, l) is Some);
        assert(l.take(m) =~= recs.take(m));
        lemma_all_channels_prefix(s, p, l, m);
    } else {
        assert(recs.take(m) =~= recs);
    }
}

/// Read the channel image data of each of `layer_records`, in turn.
fn read_all_channels(cursor: &mut PsdCursor, layer_records: &Vec<LayerRecord>) -> (r: Result<
    Vec<LayerChannels>,
    PsdLayerError,
>)
    requires
        all_channels_at(old(cursor).data(), old(cursor).pos(), record_views(layer_records@)) is Some,
    ensures
        final(cursor).data() == old(cursor).data(),
        all_channels_at(old(cursor).data(), old(cursor).pos(), record_views(layer_records@)) matches Some(
            (res, end),
        ) && (match r {
            Ok(v) => res == Ok::<Seq<Map<PsdChannelKind, ChannelData>>, PsdLayerError>(
                channels_views(v@),
            ) && final(cursor).pos() == end,
            Err(e) => res == Err::<Seq<Map<PsdChannelKind, ChannelData>>, PsdLayerError>(e),
        }),
{
    let ghost s = cursor.data();
    let ghost q = cursor.pos();
    let ghost recs = record_views(layer_records@);
    let mut all_channels: Vec<LayerChannels> = Vec::new();
    let count = layer_records.len();
    let mut i: usize = 0;
    assert(recs.take(0) =~= Seq::<LayerRecordView>::empty());
    assert(channels_views(all_channels@) =~= Seq::<Map<PsdChannelKind, ChannelData>>::empty());
    while i < count
        invariant
            cursor.data() == s,
            s == old(cursor).data(),
            q == old(cursor).pos(),
            count == layer_records@.len(),
            recs == record_views(layer_records@),
            i <= count,
            all_channels_at(s, q, recs) is Some,
            all_channels_at(s, q, recs.take(i as int)) == Some(
                (
                    Ok::<Seq<Map<PsdChannelKind, ChannelData>>, PsdLayerError>(
                        channels_views(all_channels@),
                    ),
                    cursor.pos(),
                ),
            ),
        decreases count - i,
    {
        proof {
            lemma_all_channels_prefix(s, q, recs, i + 1);
            assert(recs.take(i + 1).drop_last() =~= recs.take(i as int));
            assert(recs.take(i + 1).last() == recs[i as int]);
            assert(recs[i as int] == layer_records@[i as int]@);
        }
        let layer_record = &layer_records[i];
        let scanlines = #[verifier::truncate] (layer_record.height() as usize);
        assert(scanlines == scanlines_of(recs[i as int]));
        let channels = match read_layer_channels(cursor, layer_record.channel_data_lengths(), scanlines) {
            Ok(c) => c,
            Err(e) => {
                proof {
                    lemma_all_channels_prefix(s, q, recs, i + 1);
                    assert(all_channels_at(s, q, recs.take(i + 1)) == Some(
                        (Err::<Seq<Map<PsdChannelKind, ChannelData>>, PsdLayerError>(e), 0int),
                    ));
                }
                return Err(e);
            },
        };
        let ghost before = channels_views(all_channels@);
        all_channels.push(channels);
        assert(channels_views(all_channels@) =~= before.push(all_channels@.last()@));
        i += 1;
    }
    assert(recs.take(count as int) =~= recs);
    Ok(all_channels)
}

/// Read `layer_count` layer records, then the channel image data of each;
/// return how many groups close among them, and the records with their
/// channels from the top layer down.
pub fn read_layer_records(cursor: &mut PsdCursor, layer_count: u16) -> (r: Result<
    (usize, Vec<(LayerRecord, LayerChannels)>),
    PsdLayerError,
>)
    requires
        read_layer_records_outcome(old(cursor).data(), old(cursor).pos(), layer_count as int) is Some,
    ensures
        final(cursor).data() == old(cursor).data(),
        read_layer_records_outcome(old(cursor).data(), old(cursor).pos(), layer_count as int)
            matches Some((res, end)) && (match r {
            Ok((count, v)) => res == Ok::<
                (int, Seq<(LayerRecordView, Map<PsdChannelKind, ChannelData>)>),
                PsdLayerError,
            >((count as int, pairs_view(v@))) && final(cursor).pos() == end,
            Err(e) => res == Err::<
                (int, Seq<(LayerRecordView, Map<PsdChannelKind, ChannelData>)>),
                PsdLayerError,
            >(e),
        }),
{
    let ghost s = cursor.data();
    let ghost p = cursor.pos();
    let ghost n = layer_count as int;
    let mut groups_count: usize = 0;
    let mut layer_records: Vec<LayerRecord> = Vec::new();
    let mut layer_num: u16 = 0;
    assert(record_views(layer_records@) =~= Seq::<LayerRecordView>::empty());
    while layer_num < layer_count
        invariant
            cursor.data() == s,
            s == old(cursor).data(),
            p == old(cursor).pos(),
            n == layer_count,
            layer_num <= layer_count,
            groups_count <= layer_num,
            layer_records_at(s, p, n) is Some,
            layer_records_at(s, p, layer_num as int) == Some(
                (Ok::<Seq<LayerRecordView>, PsdLayerError>(record_views(layer_records@)), cursor.pos()),
            ),
            groups_count == bounding_count(record_views(layer_records@)),
        decreases layer_count - layer_num,
    {
        proof {
            lemma_layer_records_prefix(s, p, layer_num + 1, n);
        }
        let layer_record = match read_layer_record(cursor) {
            Ok(r) => r,
            Err(e) => {
                proof {
                    lemma_layer_records_prefix(s, p, layer_num + 1, n);
                }
                return Err(e);
            },
        };
        let ghost before = record_views(layer_records@);
        if layer_record.divider_type() == Some(GroupDivider::BoundingSection) {
            groups_count = groups_count + 1;
        }
        layer_records.push(layer_record);
        assert(record_views(layer_records@) =~= before.push(layer_records@.last()@));
        assert(record_views(layer_records@).drop_last() =~= before);
        layer_num += 1;
    }
    let ghost recs = record_views(layer_records@);
    let ghost q = cursor.pos();
    assert(layer_records_at(s, p, n) == Some((Ok::<Seq<LayerRecordView>, PsdLayerError>(recs), q)));
    let mut all_channels = match read_all_channels(cursor, &layer_records) {
        Ok(c) => c,
        Err(e) => return Err(e),
    };
    let count = layer_records.len();
    let ghost chans = channels_views(all_channels@);
    assert(recs.take(count as int) =~= recs);
    let mut result: Vec<(LayerRecord, LayerChannels)> = Vec::new();
    assert(pairs_view(result@) =~= records_top_down(recs, chans).take(0));
    while layer_records.len() > 0
        invariant
            layer_records@.len() == all_channels@.len(),
            layer_records@.len() + result@.len() == count,
            count == recs.len(),
            chans.len() == count,
            recs.take(layer_records@.len() as int) == record_views(layer_records@),
            chans.take(layer_records@.len() as int) == channels_views(all_channels@),
            pairs_view(result@) == records_top_down(recs, chans).take(result@.len() as int),
        decreases layer_records@.len(),
    {
        let ghost k = layer_records@.len();
        let ghost rv = record_views(layer_records@);
        let ghost cv = channels_views(all_channels@);
        let record = layer_records.pop().unwrap();
        let channels = all_channels.pop().unwrap();
        assert(rv[k - 1] == record@);
        assert(cv[k - 1] == channels@);
        assert(recs[k - 1] == recs.take(k as int)[k - 1]);
        assert(chans[k - 1] == chans.take(k as int)[k - 1]);
        let ghost before = pairs_view(result@);
        result.push((record, channels));
        assert(pairs_view(result@) =~= before.push((record@, channels@)));
        assert(record_views(layer_records@) =~= rv.drop_last());
        assert(channels_views(all_channels@) =~= cv.drop_last());
        assert(recs.take(k - 1) =~= recs.take(k as int).drop_last());
        assert(chans.take(k - 1) =~= chans.take(k as int).drop_last());
        assert(pairs_view(result@) =~= records_top_down(recs, chans).take(result@.len() as int));
    }
    assert(records_top_down(recs, chans).take(count as int) =~= records_top_down(recs, chans));
    Ok((groups_count, result))
}

/// A group being read: where its layers start, its name, its id and the id
/// of the group it is nested in (0 at the top level).
pub struct FrameView {
    pub start_idx: int,
    pub name: Seq<char>,
    pub group_id: u32,
    pub parent_group_id: u32,
}

/// The state of sorting layer records into layers and groups.
pub struct DecodeState {
    pub layers: Seq<PsdLayerView>,
    pub names: Seq<Seq<char>>,
    pub groups: Map<u32, PsdGroupView>,
    pub order: Seq<u32>,
    pub stack: Seq<FrameView>,
    pub viewed: int,
}

/// A group id as a parent: `None` for the top level (0).
pub open spec fn parent_of(id: u32) -> Option<u32> {
    if id > 0 {
        Some(id)
    } else {
        None
    }
}

/// Before any record: no layers or groups, and only the top level open.
pub open spec fn decode_start() -> DecodeState {
    DecodeState {
        layers: Seq::empty(),
        names: Seq::empty(),
        groups: Map::empty(),
        order: Seq::empty(),
        stack: seq![FrameView { start_idx: 0, name: "root"@, group_id: 0, parent_group_id: 0 }],
        viewed: 0,
    }
}

/// One record sorted: a folder divider opens a group (numbered in the order
/// groups open) nested in the current one; a bounding section divider closes
/// the innermost open group, which then holds the layers pushed since it
/// opened; any other record is a layer of the current group.
pub open spec fn decode_step(
    st: DecodeState,
    rec: LayerRecordView,
    chans: Map<PsdChannelKind, ChannelData>,
    w: u32,
    h: u32,
) -> DecodeState {
    let current = st.stack.last().group_id;
    match rec.divider_type {
        Some(GroupDivider::OpenFolder) | Some(GroupDivider::CloseFolder) => DecodeState {
            stack: st.stack.push(
                FrameView {
                    start_idx: st.layers.len() as int,
                    name: rec.name,
                    group_id: (st.viewed + 1) as u32,
                    parent_group_id: current,
                },
            ),
            viewed: st.viewed + 1,
            ..st
        },
        Some(GroupDivider::BoundingSection) => {
            let f = st.stack.last();
            let g = PsdGroupView {
                id: f.group_id,
                contained_start: f.start_idx as usize,
                contained_end: st.layers.len() as usize,
                properties: properties_of(f.name, rec, w, h, parent_of(f.parent_group_id)),
            };
            DecodeState {
                groups: st.groups.insert(f.group_id, g),
                order: st.order.push(f.group_id),
                stack: st.stack.drop_last(),
                ..st
            }
        },
        _ => DecodeState {
            layers: st.layers.push(
                PsdLayerView {
                    channels: chans,
                    properties: properties_of(rec.name, rec, w, h, parent_of(current)),
                },
            ),
            names: st.names.push(rec.name),
            ..st
        },
    }
}

/// Sorting `recs` into layers and groups; `None` where a record comes when no
/// group is open (not even the top level), or a group id would overflow.
pub open spec fn decode_records(
    recs: Seq<(LayerRecordView, Map<PsdChannelKind, ChannelData>)>,
    w: u32,
    h: u32,
) -> Option<DecodeState>
    decreases recs.len(),
{
    if recs.len() == 0 {
        Some(decode_start())
    } else {
        match decode_records(recs.drop_last(), w, h) {
            None => None,
            Some(st) => if st.stack.len() == 0 || st.viewed >= u32::MAX {
                None
            } else {
                Some(decode_step(st, recs.last().0, recs.last().1, w, h))
            },
        }
    }
}

/// The layer and mask information section as a mathematical value.
pub struct LayerSectionView {
    pub layers: Seq<PsdLayerView>,
    pub names: Seq<Seq<char>>,
    pub groups: Map<u32, PsdGroupView>,
    pub group_order: Seq<u32>,
}

/// A group's range of layers counted from the other end of `n` layers.
pub open spec fn flip_group(g: PsdGroupView, n: int) -> PsdGroupView {
    PsdGroupView {
        contained_start: (n - g.contained_end) as usize,
        contained_end: (n - g.contained_start) as usize,
        ..g
    }
}

/// Groups with their ranges counted from the other end of `n` layers.
pub open spec fn flip_groups(m: Map<u32, PsdGroupView>, n: int) -> Map<u32, PsdGroupView> {
    m.map_values(|g: PsdGroupView| flip_group(g, n))
}

/// The layers and groups of a finished sort. The sort runs from the top
/// layer down; the section lists its layers from the bottom one up, so the
/// layers and their names are reversed, each group's range is counted from
/// the bottom, and the groups are listed in the order in which their ranges
/// begin from the bottom up (the reverse of the order in which they close).
pub open spec fn section_of(st: DecodeState) -> LayerSectionView {
    LayerSectionView {
        layers: st.layers.reverse(),
        names: st.names.reverse(),
        groups: flip_groups(st.groups, st.layers.len() as int),
        group_order: st.order.reverse(),
    }
}

/// A record that is a layer, not a group divider.
pub open spec fn is_layer_record(r: LayerRecordView) -> bool {
    match r.divider_type {
        Some(GroupDivider::OpenFolder) | Some(GroupDivider::CloseFolder) | Some(
            GroupDivider::BoundingSection,
        ) => false,
        _ => true,
    }
}

/// How many of `recs` are layers.
pub open spec fn layer_record_count(recs: Seq<(LayerRecordView, Map<PsdChannelKind, ChannelData>)>) -> int
    decreases recs.len(),
{
    if recs.len() == 0 {
        0
    } else {
        layer_record_count(recs.drop_last()) + if is_layer_record(recs.last().0) {
            1int
        } else {
            0int
        }
    }
}

/// The LayerAndMaskInformationSection comes from the bytes in the fourth
/// section of the PSD: the layers, from the bottom one up, and the groups
/// they are nested in.
#[derive(Debug)]
pub struct LayerAndMaskInformationSection {
    pub(crate) layers: Layers,
    pub(crate) groups: Groups,
}

impl View for LayerAndMaskInformationSection {
    type V = LayerSectionView;

    closed spec fn view(&self) -> LayerSectionView {
        LayerSectionView {
            layers: layer_views(self.layers.layers_view()),
            names: self.layers.names_view(),
            groups: self.groups.groups_view(),
            group_order: self.groups.order_view(),
        }
    }
}

/// A group being read.
struct Frame {
    start_idx: usize,
    name: String,
    group_id: u32,
    parent_group_id: u32,
}

/// The views of the frames on a stack.
spec fn frame_views(v: Seq<Frame>) -> Seq<FrameView> {
    v.map_values(|f: Frame| FrameView {
        start_idx: f.start_idx as int,
        name: f.name@,
        group_id: f.group_id,
        parent_group_id: f.parent_group_id,
    })
}

impl LayerAndMaskInformationSection {
    /// The layer of a record, nested in the group with id `parent_id` (0 for
    /// the top level).
    fn read_layer(
        layer_record: &LayerRecord,
        parent_id: u32,
        psd_size: (u32, u32),
        channels: LayerChannels,
    ) -> (r: Result<PsdLayer, PsdLayerError>)
        ensures
            r matches Ok(l) && l@ == (PsdLayerView {
                channels: channels@,
                properties: properties_of(
                    layer_record@.name,
                    layer_record@,
                    psd_size.0,
                    psd_size.1,
                    parent_of(parent_id),
                ),
            }),
    {
        Ok(
            PsdLayer::new(
                layer_record,
                psd_size.0,
                psd_size.1,
                if parent_id > 0 {
                    Some(parent_id)
                } else {
                    None
                },
                channels,
            ),
        )
    }

    /// The state of a sort as a mathematical value, with its groups as
    /// `groups` (their ranges counted from the top).
    closed spec fn state_of(
        layers: &Layers,
        groups: Map<u32, PsdGroupView>,
        order: &Groups,
        stack: Seq<Frame>,
        viewed: u32,
    ) -> DecodeState {
        DecodeState {
            layers: layer_views(layers.layers_view()),
            names: layers.names_view(),
            groups,
            order: order.order_view(),
            stack: frame_views(stack),
            viewed: viewed as int,
        }
    }

    /// How many of `layer_records` are layers, not group dividers.
    fn count_layer_records(layer_records: &Vec<(LayerRecord, LayerChannels)>) -> (r: usize)
        ensures
            r == layer_record_count(pairs_view(layer_records@)),
    {
        let ghost all = pairs_view(layer_records@);
        let mut count: usize = 0;
        let mut i: usize = 0;
        assert(all.take(0) =~= Seq::<(LayerRecordView, Map<PsdChannelKind, ChannelData>)>::empty());
        while i < layer_records.len()
            invariant
                i <= layer_records@.len(),
                all == pairs_view(layer_records@),
                count <= i,
                count == layer_record_count(all.take(i as int)),
            decreases layer_records@.len() - i,
        {
            proof {
                assert(all.take(i + 1).drop_last() =~= all.take(i as int));
                assert(all.take(i + 1).last() == all[i as int]);
            }
            match layer_records[i].0.divider_type() {
                Some(GroupDivider::OpenFolder) | Some(GroupDivider::CloseFolder) | Some(
                    GroupDivider::BoundingSection,
                ) => {},
                _ => {
                    count += 1;
                },
            }
            i += 1;
        }
        assert(all.take(i as int) =~= all);
        count
    }

    /// Sort layer records, given from the top one down, into layers (listed
    /// from the bottom one up) and the groups they are nested in.
    fn decode_layers(
        layer_records: Vec<(LayerRecord, LayerChannels)>,
        group_count: usize,
        psd_size: (u32, u32),
    ) -> (r: Result<LayerAndMaskInformationSection, PsdLayerError>)
        requires
            decode_records(pairs_view(layer_records@), psd_size.0, psd_size.1) is Some,
        ensures
            decode_records(pairs_view(layer_records@), psd_size.0, psd_size.1) matches Some(st) && (
            r matches Ok(sec) && sec@ == section_of(st)),
    {
        let ghost all = pairs_view(layer_records@);
        let ghost w = psd_size.0;
        let ghost h = psd_size.1;
        let n = layer_records.len();
        let total = Self::count_layer_records(&layer_records);
        let mut layers = Layers::with_capacity(n);
        let mut groups = Groups::with_capacity(group_count);
        let ghost mut sorted: Map<u32, PsdGroupView> = Map::empty();
        let mut stack: Vec<Frame> = Vec::new();
        stack.push(Frame { start_idx: 0, name: "root".to_owned(), group_id: 0, parent_group_id: 0 });
        let mut already_viewed: u32 = 0;
        let mut rev = reverse_vec(layer_records);
        let ghost rev0 = rev@;
        let mut k: usize = 0;
        proof {
            reveal_strlit("root");
            assert(layer_views(layers.layers_view()) =~= Seq::<PsdLayerView>::empty());
            assert(all.take(0) =~= Seq::<(LayerRecordView, Map<PsdChannelKind, ChannelData>)>::empty());
            assert(frame_views(stack@) =~= decode_start().stack);
            assert(groups.groups_view() =~= flip_groups(sorted, total as int));
        }
        while rev.len() > 0
            invariant
                n == all.len(),
                rev0.len() == n,
                rev@.len() + k == n,
                rev@ == rev0.take(rev@.len() as int),
                forall|i: int| 0 <= i < n ==> (#[trigger] rev0[i].0)@ == all[n - 1 - i].0,
                forall|i: int| 0 <= i < n ==> (#[trigger] rev0[i].1)@ == all[n - 1 - i].1,
                decode_records(all, w, h) is Some,
                decode_records(all.take(k as int), w, h) == Some(
                    Self::state_of(&layers, sorted, &groups, stack@, already_viewed),
                ),
                groups.groups_view() == flip_groups(sorted, total as int),
                total == layer_record_count(all),
                n <= usize::MAX,
                w == psd_size.0,
                h == psd_size.1,
            decreases rev@.len(),
        {
            let ghost st = Self::state_of(&layers, sorted, &groups, stack@, already_viewed);
            proof {
                lemma_decode_prefix(all, w, h, k + 1);
                assert(all.take(k + 1).drop_last() =~= all.take(k as int));
                assert(all.take(k + 1).last() == all[k as int]);
                lemma_decode_ok(all.take(k as int), w, h);
                lemma_count_prefix(all, k as int);
            }
            let ghost m = rev@.len();
            let (layer_record, channels) = rev.pop().unwrap();
            assert(rev0[m - 1] == (layer_record, channels));
            assert(layer_record@ == all[k as int].0);
            assert(channels@ == all[k as int].1);
            let current_group_id = stack[stack.len() - 1].group_id;
            match layer_record.divider_type() {
                Some(GroupDivider::CloseFolder) | Some(GroupDivider::OpenFolder) => {
                    already_viewed = already_viewed + 1;
                    let ghost before = frame_views(stack@);
                    let frame = Frame {
                        start_idx: layers.len(),
                        name: layer_record.into_name(),
                        group_id: already_viewed,
                        parent_group_id: current_group_id,
                    };
                    stack.push(frame);
                    assert(frame_views(stack@) =~= before.push(frame_views(stack@).last()));
                },
                Some(GroupDivider::BoundingSection) => {
                    let ghost before = frame_views(stack@);
                    let frame = stack.pop().unwrap();
                    assert(frame_views(stack@) =~= before.drop_last());
                    assert(before.last().start_idx <= st.layers.len());
                    let count = layers.len();
                    let range = Range { start: total - count, end: total - frame.start_idx };
                    let group = PsdGroup::new(
                        frame.name,
                        frame.group_id,
                        range,
                        &layer_record,
                        psd_size.0,
                        psd_size.1,
                        if frame.parent_group_id > 0 {
                            Some(frame.parent_group_id)
                        } else {
                            None
                        },
                    );
                    let ghost g = PsdGroupView {
                        id: frame.group_id,
                        contained_start: frame.start_idx,
                        contained_end: count,
                        properties: group@.properties,
                    };
                    assert(group@ == flip_group(g, total as int));
                    groups.push(group);
                    proof {
                        sorted = sorted.insert(frame.group_id, g);
                        assert(groups.groups_view() =~= flip_groups(sorted, total as int));
                    }
                },
                _ => {
                    let psd_layer = match Self::read_layer(&layer_record, current_group_id, psd_size, channels) {
                        Ok(l) => l,
                        Err(e) => return Err(e),
                    };
                    let name = psd_layer.properties().name().to_owned();
                    let ghost before = layer_views(layers.layers_view());
                    layers.push(name, psd_layer);
                    assert(layer_views(layers.layers_view()) =~= before.push(psd_layer@));
                },
            }
            k += 1;
            assert(rev@ =~= rev0.take(rev@.len() as int));
            assert(decode_records(all.take(k as int), w, h) == Some(
                Self::state_of(&layers, sorted, &groups, stack@, already_viewed),
            ));
        }
        assert(all.take(n as int) =~= all);
        proof {
            lemma_decode_ok(all, w, h);
        }
        let ghost st = Self::state_of(&layers, sorted, &groups, stack@, already_viewed);
        layers.reverse();
        groups.reverse_order();
        let sec = LayerAndMaskInformationSection { layers, groups };
        assert(sec@.layers =~= st.layers.reverse());
        Ok(sec)
    }
}

/// Counting the layers among the first `m` records counts no more than among
/// all of them.
proof fn lemma_count_prefix(recs: Seq<(LayerRecordView, Map<PsdChannelKind, ChannelData>)>, m: int)
    requires
        0 <= m <= recs.len(),
    ensures
        0 <= layer_record_count(recs.take(m)) <= layer_record_count(recs),
    decreases recs.len() - m,
{
    if m < recs.len() {
        let l = recs.drop_last();
        assert(l.take(m) =~= recs.take(m));
        lemma_count_prefix(l, m);
    } else {
        assert(recs.take(m) =~= recs);
        lemma_count_nonneg(recs);
    }
}

/// A count of layers is not negative.
proof fn lemma_count_nonneg(recs: Seq<(LayerRecordView, Map<PsdChannelKind, ChannelData>)>)
    ensures
        0 <= layer_record_count(recs),
    decreases recs.len(),
{
    if recs.len() > 0 {
        lemma_count_nonneg(recs.drop_last());
    }
}

/// Where sorting all records succeeds, so does sorting the first `m`.
proof fn lemma_decode_prefix(
    recs: Seq<(LayerRecordView, Map<PsdChannelKind, ChannelData>)>,
    w: u32,
    h: u32,
    m: int,
)
    requires
        0 <= m <= recs.len(),
        decode_records(recs, w, h) is Some,
    ensures
        decode_records(recs.take(m), w, h) is Some,
        m < recs.len() ==> decode_records(recs.take(m), w, h)->0.stack.len() > 0,
        m < recs.len() ==> decode_records(recs.take(m), w, h)->0.viewed < u32::MAX,
    decreases recs.len() - m,
{
    if m < recs.len() {
        let l = recs.drop_last();
        assert(decode_records(l, w, h) is Some);
        assert(l.take(m) =~= recs.take(m));
        if m < l.len() {
            lemma_decode_prefix(l, w, h, m);
        } else {
            assert(l.take(m) =~= l);
        }
    } else {
        assert(recs.take(m) =~= recs);
    }
}

/// The layer and mask information section that `b` holds (with its length
/// field); or the first error. `None` where reading would fail.
pub open spec fn layer_section_from_bytes(b: Seq<u8>, w: u32, h: u32) -> Option<
    Result<LayerSectionView, PsdLayerError>,
> {
    let c = signed16(be16(b, 8));
    let n = if c < 0 { -c } else { c };
    if b.len() < 4 {
        None
    } else if be32(b, 0) == 0 {
        Some(Ok(section_of(decode_start())))
    } else if b.len() < 10 || c == -32768 {
        None
    } else {
        match read_layer_records_outcome(b, 10, n) {
            None => None,
            Some((Err(e), _)) => Some(Err(e)),
            Some((Ok((_, recs)), _)) => match decode_records(recs, w, h) {
                None => None,
                Some(st) => Some(Ok(section_of(st))),
            },
        }
    }
}

impl LayerAndMaskInformationSection {
    /// Create a LayerAndMaskInformationSection from the bytes in the
    /// corresponding section in a PSD file (including the length marker).
    pub fn from_bytes(bytes: &[u8], psd_width: u32, psd_height: u32) -> (r: Result<
        LayerAndMaskInformationSection,
        PsdLayerError,
    >)
        requires
            layer_section_from_bytes(bytes@, psd_width, psd_height) is Some,
        ensures
            layer_section_from_bytes(bytes@, psd_width, psd_height) == Some(
                match r {
                    Ok(sec) => Ok::<LayerSectionView, PsdLayerError>(sec@),
                    Err(e) => Err(e),
                },
            ),
    {
        let mut cursor = PsdCursor::new(bytes);
        let len = cursor.read_u32();
        if len == 0 {
            let layers = Layers::new();
            let groups = Groups::with_capacity(0);
            let r = LayerAndMaskInformationSection { layers, groups };
            assert(layer_views(layers.layers_view()) =~= Seq::<PsdLayerView>::empty());
            assert(r@.layers =~= section_of(decode_start()).layers);
            assert(r@.names =~= section_of(decode_start()).names);
            assert(r@.groups =~= section_of(decode_start()).groups);
            assert(r@.group_order =~= section_of(decode_start()).group_order);
            return Ok(r);
        }
        let _layer_info_section_len = cursor.read_u32();
        let layer_count = cursor.read_i16();
        let layer_count: u16 = if layer_count < 0 {
            (-layer_count) as u16
        } else {
            layer_count as u16
        };
        let (group_count, layer_records) = match read_layer_records(&mut cursor, layer_count) {
            Ok(v) => v,
            Err(e) => return Err(e),
        };
        Self::decode_layers(layer_records, group_count, (psd_width, psd_height))
    }

    /// All of the layers, from the bottom one up.
    pub fn layers(&self) -> (r: &Layers)
        ensures
            layer_views(r.layers_view()) == self@.layers,
            r.names_view() == self@.names,
    {
        &self.layers
    }

    /// All of the groups.
    pub fn groups(&self) -> (r: &Groups)
        ensures
            r.groups_view() == self@.groups,
            r.order_view() == self@.group_order,
    {
        &self.groups
    }
}

/// Each group holds a run of the layers: its range starts no later than it
/// ends, and ends within the layers.
pub open spec fn groups_within(sec: LayerSectionView) -> bool {
    forall|id: u32|
        #![trigger sec.groups[id]]
        sec.groups.contains_key(id) ==> sec.groups[id].contained_start
            <= sec.groups[id].contained_end <= sec.layers.len()
}

/// Each group's range starts no later than it ends, and ends within `n`.
pub open spec fn ranges_within(groups: Map<u32, PsdGroupView>, n: int) -> bool {
    forall|id: u32|
        #![trigger groups[id]]
        groups.contains_key(id) ==> groups[id].contained_start <= groups[id].contained_end <= n
}

/// A sort in progress keeps its open groups' starts and its closed groups'
/// ranges within the layers pushed so far, and has a name for each layer.
pub open spec fn decode_state_ok(st: DecodeState) -> bool {
    &&& ranges_within(st.groups, st.layers.len() as int)
    &&& st.names.len() == st.layers.len()
    &&& forall|i: int|
        #![trigger st.stack[i]]
        0 <= i < st.stack.len() ==> 0 <= st.stack[i].start_idx <= st.layers.len()
}

/// Reading `n` records gives `n` of them.
proof fn lemma_layer_records_len(s: Seq<u8>, p: int, n: int)
    ensures
        layer_records_at(s, p, n) matches Some((Ok(v), _)) ==> v.len() == if n <= 0 {
            0
        } else {
            n
        },
    decreases n,
{
    if n > 0 {
        lemma_layer_records_len(s, p, n - 1);
    }
}

/// Sorting records keeps the ranges of groups within the layers, and makes no
/// more layers than there are records.
proof fn lemma_decode_ok(
    recs: Seq<(LayerRecordView, Map<PsdChannelKind, ChannelData>)>,
    w: u32,
    h: u32,
)
    requires
        recs.len() <= usize::MAX,
    ensures
        decode_records(recs, w, h) matches Some(st) ==> decode_state_ok(st) && st.layers.len()
            <= recs.len() && st.layers.len() == layer_record_count(recs),
    decreases recs.len(),
{
    if recs.len() == 0 {
        assert(decode_state_ok(decode_start()));
    } else {
        lemma_decode_ok(recs.drop_last(), w, h);
        match decode_records(recs.drop_last(), w, h) {
            None => {},
            Some(st) => {
                if st.stack.len() > 0 && st.viewed < u32::MAX {
                    let next = decode_step(st, recs.last().0, recs.last().1, w, h);
                    let f = st.stack.last();
                    assert(0 <= f.start_idx <= st.layers.len());
                    assert forall|id: u32| #![trigger next.groups[id]]
                        next.groups.contains_key(id) implies next.groups[id].contained_start
                        <= next.groups[id].contained_end <= next.layers.len() by {
                        if st.groups.contains_key(id) && next.groups[id] == st.groups[id] {
                            assert(st.groups[id].contained_start <= st.groups[id].contained_end
                                <= st.layers.len());
                        }
                    }
                    assert forall|i: int| #![trigger next.stack[i]]
                        0 <= i < next.stack.len() implies 0 <= next.stack[i].start_idx
                        <= next.layers.len() by {
                        if i < st.stack.len() {
                            assert(st.stack[i] == next.stack[i]);
                        }
                    }
                }
            },
        }
    }
}

/// Of a layer and mask information section that reads, each group holds a
/// run of its layers: the group's range starts no later than it ends, and
/// ends within the layers.
pub proof fn lemma_groups_within_layers(b: Seq<u8>, w: u32, h: u32)
    ensures
        layer_section_from_bytes(b, w, h) matches Some(Ok(sec)) ==> groups_within(sec),
{
    let c = signed16(be16(b, 8));
    let n = if c < 0 {
        -c
    } else {
        c
    };
    if b.len() >= 10 && be32(b, 0) != 0 && c != -32768 {
        lemma_layer_records_len(b, 10, n);
        match read_layer_records_outcome(b, 10, n) {
            Some((Ok((_, recs)), _)) => {
                lemma_decode_ok(recs, w, h);
                if let Some(st) = decode_records(recs, w, h) {
                    lemma_section_within(st);
                }
            },
            _ => {},
        }
    } else if b.len() >= 4 && be32(b, 0) == 0 {
        lemma_decode_ok(Seq::empty(), w, h);
        lemma_section_within(decode_start());
    }
}

/// Each group id appears once in the order of the groups, and the ids in
/// the order are exactly those of the groups.
pub open spec fn group_order_ok(sec: LayerSectionView) -> bool {
    &&& forall|i: int, j: int|
        0 <= i < j < sec.group_order.len() ==> #[trigger] sec.group_order[i]
            != #[trigger] sec.group_order[j]
    &&& forall|id: u32| #[trigger] sec.groups.contains_key(id) <==> sec.group_order.contains(id)
}

/// A sort in progress numbers groups apart: the closed groups are listed
/// once each in the order, the open ones have ids of their own, and no id
/// exceeds the number of groups opened.
pub open spec fn decode_ids_ok(st: DecodeState) -> bool {
    &&& forall|i: int, j: int|
        0 <= i < j < st.order.len() ==> #[trigger] st.order[i] != #[trigger] st.order[j]
    &&& forall|id: u32| #[trigger] st.groups.contains_key(id) <==> st.order.contains(id)
    &&& forall|i: int, j: int|
        0 <= i < j < st.stack.len() ==> #[trigger] st.stack[i].group_id
            != #[trigger] st.stack[j].group_id
    &&& forall|i: int, j: int|
        0 <= i < st.stack.len() && 0 <= j < st.order.len() ==> #[trigger] st.stack[i].group_id
            != #[trigger] st.order[j]
    &&& forall|i: int| 0 <= i < st.stack.len() ==> #[trigger] st.stack[i].group_id <= st.viewed
    &&& forall|j: int| 0 <= j < st.order.len() ==> #[trigger] st.order[j] <= st.viewed
    &&& 0 <= st.viewed
}

/// Sorting records numbers the groups apart.
proof fn lemma_decode_ids(recs: Seq<(LayerRecordView, Map<PsdChannelKind, ChannelData>)>, w: u32, h: u32)
    ensures
        decode_records(recs, w, h) matches Some(st) ==> decode_ids_ok(st),
    decreases recs.len(),
{
    if recs.len() == 0 {
        let st = decode_start();
        assert(decode_ids_ok(st));
    } else {
        lemma_decode_ids(recs.drop_last(), w, h);
        match decode_records(recs.drop_last(), w, h) {
            None => {},
            Some(st) => {
                if st.stack.len() > 0 && st.viewed < u32::MAX {
                    let rec = recs.last().0;
                    let next = decode_step(st, rec, recs.last().1, w, h);
                    match rec.divider_type {
                        Some(GroupDivider::OpenFolder) | Some(GroupDivider::CloseFolder) => {
                            let id = (st.viewed + 1) as u32;
                            assert(id == st.viewed + 1);
                            assert forall|i: int, j: int| 0 <= i < j < next.stack.len() implies #[trigger] next.stack[i].group_id
                                != #[trigger] next.stack[j].group_id by {
                                if j < st.stack.len() {
                                    assert(next.stack[i] == st.stack[i]);
                                    assert(next.stack[j] == st.stack[j]);
                                } else {
                                    assert(next.stack[i] == st.stack[i]);
                                }
                            }
                            assert forall|i: int, j: int|
                                0 <= i < next.stack.len() && 0 <= j < next.order.len() implies #[trigger] next.stack[i].group_id
                                != #[trigger] next.order[j] by {
                                if i < st.stack.len() {
                                    assert(next.stack[i] == st.stack[i]);
                                }
                            }
                            assert forall|i: int| 0 <= i < next.stack.len() implies #[trigger] next.stack[i].group_id
                                <= next.viewed by {
                                if i < st.stack.len() {
                                    assert(next.stack[i] == st.stack[i]);
                                }
                            }
                            assert(next.order == st.order);
                            assert(next.groups == st.groups);
                        },
                        Some(GroupDivider::BoundingSection) => {
                            let f = st.stack.last();
                            let last = st.stack.len() - 1;
                            assert(next.order == st.order.push(f.group_id));
                            assert(next.stack == st.stack.drop_last());
                            assert(forall|j: int| 0 <= j < st.order.len() ==> st.order[j] != f.group_id) by {
                                assert forall|j: int| 0 <= j < st.order.len() implies st.order[j] != f.group_id by {
                                    assert(st.stack[last].group_id != st.order[j]);
                                }
                            }
                            assert forall|i: int, j: int| 0 <= i < j < next.order.len() implies #[trigger] next.order[i]
                                != #[trigger] next.order[j] by {
                                if j < st.order.len() {
                                    assert(st.order[i] != st.order[j]);
                                } else {
                                    assert(next.order[j] == f.group_id);
                                    assert(next.order[i] == st.order[i]);
                                }
                            }
                            assert forall|id: u32| #[trigger] next.groups.contains_key(id) <==> next.order.contains(id) by {
                                if next.order.contains(id) {
                                    let j = choose|j: int| 0 <= j < next.order.len() && next.order[j] == id;
                                    if j < st.order.len() {
                                        assert(st.order[j] == id);
                                        assert(st.order.contains(id));
                                    }
                                }
                                if st.order.contains(id) {
                                    let j = choose|j: int| 0 <= j < st.order.len() && st.order[j] == id;
                                    assert(next.order[j] == id);
                                }
                                if id == f.group_id {
                                    assert(next.order[st.order.len() as int] == id);
                                }
                            }
                            assert forall|i: int, j: int| 0 <= i < j < next.stack.len() implies #[trigger] next.stack[i].group_id
                                != #[trigger] next.stack[j].group_id by {
                                assert(next.stack[i] == st.stack[i]);
                                assert(next.stack[j] == st.stack[j]);
                            }
                            assert forall|i: int, j: int|
                                0 <= i < next.stack.len() && 0 <= j < next.order.len() implies #[trigger] next.stack[i].group_id
                                != #[trigger] next.order[j] by {
                                assert(next.stack[i] == st.stack[i]);
                                if j < st.order.len() {
                                    assert(next.order[j] == st.order[j]);
                                } else {
                                    assert(st.stack[i].group_id != st.stack[last].group_id);
                                }
                            }
                            assert forall|i: int| 0 <= i < next.stack.len() implies #[trigger] next.stack[i].group_id
                                <= next.viewed by {
                                assert(next.stack[i] == st.stack[i]);
                            }
                            assert forall|j: int| 0 <= j < next.order.len() implies #[trigger] next.order[j]
                                <= next.viewed by {
                                if j < st.order.len() {
                                    assert(next.order[j] == st.order[j]);
                                } else {
                                    assert(st.stack[last].group_id <= st.viewed);
                                }
                            }
                        },
                        _ => {
                            assert(next.order == st.order);
                            assert(next.groups == st.groups);
                            assert(next.stack == st.stack);
                            assert(next.viewed == st.viewed);
                        },
                    }
                    assert(decode_ids_ok(next));
                }
            },
        }
    }
}

/// The section of a sort that numbers its groups apart lists each group
/// once in its order of groups.
proof fn lemma_section_order(st: DecodeState)
    requires
        decode_ids_ok(st),
    ensures
        group_order_ok(section_of(st)),
{
    let sec = section_of(st);
    let o = st.order;
    assert forall|i: int, j: int| 0 <= i < j < sec.group_order.len() implies #[trigger] sec.group_order[i]
        != #[trigger] sec.group_order[j] by {
        assert(sec.group_order[i] == o[o.len() - 1 - i]);
        assert(sec.group_order[j] == o[o.len() - 1 - j]);
    }
    assert forall|id: u32| #[trigger] sec.groups.contains_key(id) <==> sec.group_order.contains(id) by {
        if o.contains(id) {
            let j = choose|j: int| 0 <= j < o.len() && o[j] == id;
            assert(sec.group_order[o.len() - 1 - j] == id);
        }
        if sec.group_order.contains(id) {
            let j = choose|j: int| 0 <= j < sec.group_order.len() && sec.group_order[j] == id;
            assert(o[o.len() - 1 - j] == id);
        }
    }
}

/// The section of a sort whose ranges lie within its layers has each group
/// hold a run of its layers.
proof fn lemma_section_within(st: DecodeState)
    requires
        decode_state_ok(st),
        st.layers.len() <= usize::MAX,
    ensures
        groups_within(section_of(st)),
{
    let sec = section_of(st);
    assert forall|id: u32| #![trigger sec.groups[id]] sec.groups.contains_key(id) implies sec.groups[id].contained_start
        <= sec.groups[id].contained_end <= sec.layers.len() by {
        assert(st.groups[id].contained_start <= st.groups[id].contained_end <= st.layers.len());
        assert(sec.groups[id] == flip_group(st.groups[id], st.layers.len() as int));
    }
}

/// A count of folder records is not negative.
proof fn lemma_folder_count_nonneg(recs: Seq<(LayerRecordView, Map<PsdChannelKind, ChannelData>)>)
    ensures
        0 <= folder_count(recs),
    decreases recs.len(),
{
    if recs.len() > 0 {
        lemma_folder_count_nonneg(recs.drop_last());
    }
}

/// A record that opens a group: a folder divider, open or closed.
pub open spec fn is_folder_record(r: LayerRecordView) -> bool {
    r.divider_type == Some(GroupDivider::OpenFolder) || r.divider_type == Some(
        GroupDivider::CloseFolder,
    )
}

/// How many of `recs` open a group.
pub open spec fn folder_count(recs: Seq<(LayerRecordView, Map<PsdChannelKind, ChannelData>)>) -> int
    decreases recs.len(),
{
    if recs.len() == 0 {
        0
    } else {
        folder_count(recs.drop_last()) + if is_folder_record(recs.last().0) {
            1int
        } else {
            0int
        }
    }
}

/// The record at `i` of `recs` opens a group, it is the `id`-th such record
/// (counting from 1), and its name is `name`.
pub open spec fn opened_by(
    recs: Seq<(LayerRecordView, Map<PsdChannelKind, ChannelData>)>,
    i: int,
    id: u32,
    name: Seq<char>,
) -> bool {
    &&& 0 <= i < recs.len()
    &&& is_folder_record(recs[i].0)
    &&& folder_count(recs.take(i)) + 1 == id
    &&& recs[i].0.name == name
}

/// A sort in progress has numbered as many groups as folder records came,
/// and each open or closed group but the top level carries the name of the
/// folder record that opened it.
pub open spec fn names_ok(
    recs: Seq<(LayerRecordView, Map<PsdChannelKind, ChannelData>)>,
    st: DecodeState,
) -> bool {
    &&& st.viewed == folder_count(recs)
    &&& forall|j: int|
        0 <= j < st.stack.len() && #[trigger] st.stack[j].group_id > 0 ==> exists|i: int|
            #[trigger] opened_by(recs, i, st.stack[j].group_id, st.stack[j].name)
    &&& forall|id: u32|
        #[trigger] st.groups.contains_key(id) && id > 0 ==> exists|i: int|
            #[trigger] opened_by(recs, i, id, st.groups[id].properties.name)
}

/// What a record opened stays opened by it when more records follow.
proof fn lemma_opened_by_extends(
    recs: Seq<(LayerRecordView, Map<PsdChannelKind, ChannelData>)>,
    i: int,
    id: u32,
    name: Seq<char>,
)
    requires
        recs.len() > 0,
        opened_by(recs.drop_last(), i, id, name),
    ensures
        opened_by(recs, i, id, name),
{
    assert(recs.drop_last().take(i) =~= recs.take(i));
}

/// Sorting records names each group after the folder record that opened it.
proof fn lemma_decode_names(recs: Seq<(LayerRecordView, Map<PsdChannelKind, ChannelData>)>, w: u32, h: u32)
    ensures
        decode_records(recs, w, h) matches Some(st) ==> names_ok(recs, st),
    decreases recs.len(),
{
    if recs.len() == 0 {
        assert(names_ok(recs, decode_start()));
    } else {
        let l = recs.drop_last();
        lemma_decode_names(l, w, h);
        if let Some(st) = decode_records(l, w, h) {
            if st.stack.len() > 0 && st.viewed < u32::MAX {
                let rec = recs.last().0;
                let next = decode_step(st, rec, recs.last().1, w, h);
                assert forall|j: int|
                    0 <= j < st.stack.len() && #[trigger] st.stack[j].group_id > 0 implies exists|i: int|
                    #[trigger] opened_by(recs, i, st.stack[j].group_id, st.stack[j].name) by {
                    let i = choose|i: int| #[trigger] opened_by(l, i, st.stack[j].group_id, st.stack[j].name);
                    lemma_opened_by_extends(recs, i, st.stack[j].group_id, st.stack[j].name);
                }
                assert forall|id: u32|
                    #[trigger] st.groups.contains_key(id) && id > 0 implies exists|i: int|
                    #[trigger] opened_by(recs, i, id, st.groups[id].properties.name) by {
                    let i = choose|i: int| #[trigger] opened_by(l, i, id, st.groups[id].properties.name);
                    lemma_opened_by_extends(recs, i, id, st.groups[id].properties.name);
                }
                match rec.divider_type {
                    Some(GroupDivider::OpenFolder) | Some(GroupDivider::CloseFolder) => {
                        let last = recs.len() - 1;
                        assert(recs.take(last) =~= l);
                        assert(st.viewed == folder_count(l));
                        lemma_folder_count_nonneg(l);
                        assert(folder_count(recs.take(last)) == folder_count(l));
                        assert(recs[last].0 == rec);
                        assert(is_folder_record(rec));
                        assert(((st.viewed + 1) as u32) as int == st.viewed + 1);
                        assert(opened_by(recs, last, (st.viewed + 1) as u32, rec.name));
                        assert forall|j: int|
                            0 <= j < next.stack.len() && #[trigger] next.stack[j].group_id > 0 implies exists|i: int|
                            #[trigger] opened_by(recs, i, next.stack[j].group_id, next.stack[j].name) by {
                            if j < st.stack.len() {
                                assert(next.stack[j] == st.stack[j]);
                            } else {
                                assert(opened_by(recs, last, next.stack[j].group_id, next.stack[j].name));
                            }
                        }
                        assert(names_ok(recs, next));
                    },
                    Some(GroupDivider::BoundingSection) => {
                        let f = st.stack.last();
                        assert forall|j: int|
                            0 <= j < next.stack.len() && #[trigger] next.stack[j].group_id > 0 implies exists|i: int|
                            #[trigger] opened_by(recs, i, next.stack[j].group_id, next.stack[j].name) by {
                            assert(next.stack[j] == st.stack[j]);
                        }
                        assert forall|id: u32|
                            #[trigger] next.groups.contains_key(id) && id > 0 implies exists|i: int|
                            #[trigger] opened_by(recs, i, id, next.groups[id].properties.name) by {
                            if id == f.group_id {
                                assert(st.stack[st.stack.len() - 1].group_id > 0);
                                assert(next.groups[id].properties.name == f.name);
                            } else {
                                assert(next.groups[id] == st.groups[id]);
                            }
                        }
                        assert(names_ok(recs, next));
                    },
                    _ => {
                        assert(names_ok(recs, next));
                    },
                }
            }
        }
    }
}

/// Each group but the top level (numbered 0) is named after the folder
/// record that opened it: groups are numbered 1, 2, ... in the order in which
/// their folder records come (from the top layer down), and group `id` has
/// the name of the `id`-th folder record, not that of the bounding divider
/// that closes it.
pub proof fn lemma_groups_named_by_folders(
    recs: Seq<(LayerRecordView, Map<PsdChannelKind, ChannelData>)>,
    w: u32,
    h: u32,
)
    ensures
        decode_records(recs, w, h) matches Some(st) ==> forall|id: u32|
            #[trigger] section_of(st).groups.contains_key(id) && id > 0 ==> exists|i: int|
                #[trigger] opened_by(recs, i, id, section_of(st).groups[id].properties.name),
{
    lemma_decode_names(recs, w, h);
    if let Some(st) = decode_records(recs, w, h) {
        assert forall|id: u32|
            #[trigger] section_of(st).groups.contains_key(id) && id > 0 implies exists|i: int|
            #[trigger] opened_by(recs, i, id, section_of(st).groups[id].properties.name) by {
            assert(section_of(st).groups[id].properties == st.groups[id].properties);
        }
    }
}

/// Of a layer and mask information section that reads, each group id appears
/// once in the order of the groups, and the ids in the order are exactly
/// those of the groups.
pub proof fn lemma_group_order(b: Seq<u8>, w: u32, h: u32)
    ensures
        layer_section_from_bytes(b, w, h) matches Some(Ok(sec)) ==> group_order_ok(sec),
{
    let c = signed16(be16(b, 8));
    let n = if c < 0 {
        -c
    } else {
        c
    };
    if b.len() >= 10 && be32(b, 0) != 0 && c != -32768 {
        match read_layer_records_outcome(b, 10, n) {
            Some((Ok((_, recs)), _)) => {
                lemma_decode_ids(recs, w, h);
                if let Some(st) = decode_records(recs, w, h) {
                    lemma_section_order(st);
                }
            },
            _ => {},
        }
    } else if b.len() >= 4 && be32(b, 0) == 0 {
        lemma_decode_ids(Seq::empty(), w, h);
        lemma_section_order(decode_start());
    }
}

} // verus!
