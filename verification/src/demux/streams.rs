//! The streams of a file: the still image, and one stream per visual track.
use crate::boxes::{fourcc_eq, fourcc_str, fourcc_text, FourCc};
use crate::bytes::copy_of;
use crate::decode::{
    av1_layout, av1_layout_of, hevc_layout, CODEC_ID_AV1, CODEC_ID_AVC, CODEC_ID_HEVC,
};
use crate::demux::predict::{
    core_pixel_format, declared_range, emitted_format, item_full_range, predict_output, predicted,
};
use crate::demux::CODEC_ID;
use crate::derived::{build_primary_graph, graph_of, size_after, ImageNode, NodeModel};
use crate::encode::text_of;
use crate::error::{ErrorKind, HeifError, Outcome, Result};
use crate::file::{FileModel, HeifFile};
use crate::image::coded_layout;
use crate::image::core_bridge::PixelFormat;
use crate::image::HeifPixelFormat;
use crate::props::first_nclx;
use crate::sequence::{
    at_least_one, Movie, MovieModel, Sample, SampleEntry, SampleEntryModel, Track, TrackModel,
};
use crate::tags;
use crate::text::{concat, concat_chars, decimal, decimal_chars};
use vstd::prelude::*;

verus! {

/// A stream of a file.
#[derive(Debug)]
pub struct StreamPlan {
    /// Codec id.
    pub codec_id: String,
    /// Picture size, when known.
    pub size: Option<(u32, u32)>,
    /// Configuration record of the decoder.
    pub extradata: Vec<u8>,
    /// Framework pixel format, when there is one.
    pub pixel_format: Option<PixelFormat>,
    /// Ticks per second.
    pub timescale: u32,
    /// Duration in ticks.
    pub duration: i64,
    /// First presentation time, when there is a packet.
    pub start_time: Option<i64>,
    /// Sample-entry type of a track stream.
    pub tag: Option<FourCc>,
    /// Index of the track, `None` for the still image.
    pub track: Option<usize>,
}

/// Model of [`StreamPlan`].
pub struct StreamModel {
    /// Codec id.
    pub codec_id: Seq<char>,
    /// Picture size.
    pub size: Option<(u32, u32)>,
    /// Configuration record of the decoder.
    pub extradata: Seq<u8>,
    /// Framework pixel format.
    pub pixel_format: Option<PixelFormat>,
    /// Ticks per second.
    pub timescale: u32,
    /// Duration in ticks.
    pub duration: i64,
    /// First presentation time.
    pub start_time: Option<i64>,
    /// Sample-entry type.
    pub tag: Option<FourCc>,
    /// Index of the track.
    pub track: Option<usize>,
}

impl View for StreamPlan {
    type V = StreamModel;

    open spec fn view(&self) -> StreamModel {
        StreamModel {
            codec_id: self.codec_id@,
            size: self.size,
            extradata: self.extradata@,
            pixel_format: self.pixel_format,
            timescale: self.timescale,
            duration: self.duration,
            start_time: self.start_time,
            tag: self.tag,
            track: self.track,
        }
    }
}

/// The models of a list of streams.
pub open spec fn stream_models(v: Seq<StreamPlan>) -> Seq<StreamModel> {
    Seq::new(v.len(), |i: int| v[i]@)
}

/// The models of a list of keys and values.
pub open spec fn entries(v: Seq<(String, String)>) -> Seq<(Seq<char>, Seq<char>)> {
    Seq::new(v.len(), |i: int| (v[i].0@, v[i].1@))
}

/// A list of texts separated by commas.
pub open spec fn comma_joined(v: Seq<Seq<char>>) -> Seq<char>
    decreases v.len(),
{
    if v.len() == 0 {
        Seq::empty()
    } else if v.len() == 1 {
        v[0]
    } else {
        comma_joined(v.drop_last()) + ","@ + v.last()
    }
}

/// The renderings of a list of four-character codes.
pub open spec fn code_texts(v: Seq<FourCc>) -> Seq<Seq<char>> {
    Seq::new(v.len(), |i: int| fourcc_text(v[i]))
}

/// The decimal renderings of a list of numbers.
pub open spec fn number_texts(v: Seq<u32>) -> Seq<Seq<char>> {
    Seq::new(v.len(), |i: int| decimal_chars(v[i] as nat))
}

/// The models of a list of texts.
pub open spec fn texts(v: Seq<String>) -> Seq<Seq<char>> {
    Seq::new(v.len(), |i: int| v[i]@)
}

fn join_texts(v: &Vec<String>) -> (r: String)
    ensures
        r@ == comma_joined(texts(v@)),
{
    let ghost all = texts(v@);
    let mut out: String = String::new();
    assert(all.take(0) =~= Seq::empty());
    proof {
        reveal_strlit("");
    }
    for i in 0..v.len()
        invariant
            all == texts(v@),
            out@ == comma_joined(all.take(i as int)),
    {
        proof {
            assert(all.take(i + 1).drop_last() =~= all.take(i as int));
            assert(all.take(i + 1).last() == v@[i as int]@);
        }
        if i == 0 {
            out = text_of(v[i].as_str());
        } else {
            out = out.concat(",").concat(v[i].as_str());
        }
    }
    assert(all.take(all.len() as int) =~= all);
    out
}

fn join_codes(v: &Vec<FourCc>) -> (r: String)
    ensures
        r@ == comma_joined(code_texts(v@)),
{
    let mut t: Vec<String> = Vec::new();
    for i in 0..v.len()
        invariant
            t@.len() == i,
            forall|k: int| 0 <= k < i ==> (#[trigger] t@[k])@ == fourcc_text(v@[k]),
    {
        t.push(fourcc_str(&v[i]));
    }
    assert(texts(t@) =~= code_texts(v@));
    join_texts(&t)
}

fn join_numbers(v: &Vec<u32>) -> (r: String)
    ensures
        r@ == comma_joined(number_texts(v@)),
{
    let mut t: Vec<String> = Vec::new();
    for i in 0..v.len()
        invariant
            t@.len() == i,
            forall|k: int| 0 <= k < i ==> (#[trigger] t@[k])@ == decimal_chars(v@[k] as nat),
    {
        t.push(decimal(v[i] as u64));
    }
    assert(texts(t@) =~= number_texts(v@));
    join_texts(&t)
}

fn push_entry(v: &mut Vec<(String, String)>, key: String, value: String)
    ensures
        entries(final(v)@) == entries(old(v)@).push((key@, value@)),
{
    let ghost before = entries(v@);
    v.push((key, value));
    assert(entries(v@) =~= before.push((key@, value@)));
}

/// Whether the file-level `meta` box holds pictures.
pub open spec fn has_pictures(f: FileModel) -> bool {
    match f.meta {
        Some(m) => match m.handler {
            Some(h) => h.handler_type == tags::PICT,
            None => false,
        },
        None => false,
    }
}

/// The graph of the primary item of a picture file.
pub open spec fn still_graph(f: FileModel) -> Option<NodeModel> {
    if has_pictures(f) {
        match f.primary() {
            Some(i) => match graph_of(f, i.id) {
                Ok(n) => Some(n),
                Err(_) => None,
            },
            None => None,
        }
    } else {
        None
    }
}

/// The still image stream: the predicted geometry and pixel format, or the
/// output size alone.
pub open spec fn still_stream(n: NodeModel) -> StreamModel {
    StreamModel {
        codec_id: CODEC_ID@,
        size: match predicted(n) {
            Ok(f) => Some(f.1),
            Err(_) => match size_after(n) {
                Ok(s) => Some(s),
                Err(_) => None,
            },
        },
        extradata: Seq::empty(),
        pixel_format: match predicted(n) {
            Ok(f) => emitted_format(f.0, declared_range(first_nclx(n.properties.colrs()))),
            Err(_) => None,
        },
        timescale: 1,
        duration: 1,
        start_time: Some(0),
        tag: None,
        track: None,
    }
}

fn plan_still(node: &ImageNode) -> (r: StreamPlan)
    ensures
        r@ == still_stream(node@),
{
    let (size, pixel_format): (Option<(u32, u32)>, Option<PixelFormat>) = match predict_output(
        node,
    ) {
        Ok(f) => (Some(f.1), core_pixel_format(f.0, item_full_range(node))),
        Err(_) => match node.output_size() {
            Ok(s) => (Some(s), None),
            Err(_) => (None, None),
        },
    };
    let r: StreamPlan = StreamPlan {
        codec_id: text_of(CODEC_ID),
        size,
        extradata: Vec::new(),
        pixel_format,
        timescale: 1,
        duration: 1,
        start_time: Some(0),
        tag: None,
        track: None,
    };
    assert(r@.extradata =~= Seq::empty());
    r
}

/// The codec id of a well-known sample-entry type.
pub open spec fn known_codec(t: FourCc) -> Option<Seq<char>> {
    if t == tags::HVC1 || t == tags::HEV1 || t == tags::HVC2 || t == tags::HEV2 {
        Some(CODEC_ID_HEVC@)
    } else if t == tags::AV01 {
        Some(CODEC_ID_AV1@)
    } else if t == tags::AVC1 || t == tags::AVC3 {
        Some(CODEC_ID_AVC@)
    } else {
        None
    }
}

/// Codec id for a sample-entry type by the well-known types.
pub fn codec_id_for_entry(entry_type: &FourCc) -> (r: Option<&'static str>)
    ensures
        match r {
            Some(s) => known_codec(*entry_type) == Some(s@),
            None => known_codec(*entry_type) is None,
        },
{
    if fourcc_eq(entry_type, &tags::HVC1) || fourcc_eq(entry_type, &tags::HEV1) || fourcc_eq(
        entry_type,
        &tags::HVC2,
    ) || fourcc_eq(entry_type, &tags::HEV2) {
        Some(CODEC_ID_HEVC)
    } else if fourcc_eq(entry_type, &tags::AV01) {
        Some(CODEC_ID_AV1)
    } else if fourcc_eq(entry_type, &tags::AVC1) || fourcc_eq(entry_type, &tags::AVC3) {
        Some(CODEC_ID_AVC)
    } else {
        None
    }
}

/// The texts that may be absent.
pub open spec fn optional_texts(v: Seq<Option<String>>) -> Seq<Option<Seq<char>>> {
    Seq::new(
        v.len(),
        |i: int|
            match v[i] {
                Some(s) => Some(s@),
                None => None,
            },
    )
}

/// The codec of a track: the one resolved for it, else the well-known one of
/// its sample-entry type; `None` for a track that is no stream.
pub open spec fn track_codec(t: TrackModel, resolved: Option<Seq<char>>) -> Option<Seq<char>> {
    if !t.visual() || t.sample_entries.len() == 0 {
        None
    } else {
        match resolved {
            Some(c) => Some(c),
            None => known_codec(t.sample_entries[0].entry_type),
        }
    }
}

/// The framework format of an announced layout.
pub open spec fn layout_format(r: Outcome<HeifPixelFormat>) -> Option<PixelFormat> {
    match r {
        Ok(f) => f.core_format(),
        Err(_) => None,
    }
}

/// The record and the pixel format of a sample entry.
pub open spec fn entry_record(e: SampleEntryModel) -> (Seq<u8>, Option<PixelFormat>) {
    match e.hvcc {
        Some(h) => (
            h.raw,
            layout_format(coded_layout(h.chroma_format_idc, h.bit_depth_luma_minus8)),
        ),
        None => match e.av1c {
            Some(a) => (a.raw, layout_format(av1_layout_of(a))),
            None => (Seq::empty(), None),
        },
    }
}

/// Presentation time of a sample.
pub open spec fn pts_of(s: Sample) -> u64 {
    (if s.dts + s.cts_offset < 0 {
        0
    } else {
        (s.dts + s.cts_offset) % 0x1_0000_0000_0000_0000
    }) as u64
}

/// The stream of a track.
pub open spec fn track_stream(t: TrackModel, index: int, codec: Seq<char>) -> StreamModel {
    let e = t.sample_entries[0];
    StreamModel {
        codec_id: codec,
        size: Some((e.width as u32, e.height as u32)),
        extradata: entry_record(e).0,
        pixel_format: entry_record(e).1,
        timescale: at_least_one(t.timescale) as u32,
        duration: t.duration as i64,
        start_time: if t.samples.len() > 0 {
            Some(pts_of(t.samples[0]) as i64)
        } else {
            None
        },
        tag: Some(e.entry_type),
        track: Some(index as usize),
    }
}

fn format_of(r: Result<HeifPixelFormat>) -> (o: Option<PixelFormat>)
    ensures
        o == layout_format(crate::error::plain_outcome(r)),
{
    match r {
        Ok(f) => f.to_core(),
        Err(_) => None,
    }
}

fn plan_track(t: &Track, index: usize, codec: &str) -> (r: StreamPlan)
    requires
        t@.sample_entries.len() > 0,
    ensures
        r@ == track_stream(t@, index as int, codec@),
{
    let e: &SampleEntry = &t.sample_entries[0];
    assert(t@.sample_entries[0] == e@);
    let (extradata, pixel_format): (Vec<u8>, Option<PixelFormat>) = match &e.hvcc {
        Some(h) => (copy_of(h.raw.as_slice()), format_of(hevc_layout(h))),
        None => match &e.av1c {
            Some(a) => (copy_of(a.raw.as_slice()), format_of(av1_layout(a))),
            None => (Vec::new(), None),
        },
    };
    assert(extradata@ =~= entry_record(e@).0);
    let start_time: Option<i64> = if t.samples.len() > 0 {
        Some(t.samples[0].pts() as i64)
    } else {
        None
    };
    StreamPlan {
        codec_id: text_of(codec),
        size: Some((e.width as u32, e.height as u32)),
        extradata,
        pixel_format,
        timescale: if t.timescale == 0 {
            1
        } else {
            t.timescale
        },
        duration: t.duration as i64,
        start_time,
        tag: Some(e.entry_type),
        track: Some(index),
    }
}

/// The metadata of the references of a track.
pub open spec fn reference_entries(id: u32, refs: Seq<(FourCc, Seq<u32>)>) -> Seq<
    (Seq<char>, Seq<char>),
> {
    Seq::new(
        refs.len(),
        |i: int|
            (
                concat_chars(
                    seq!["track:"@, decimal_chars(id as nat), ":tref:"@, fourcc_text(refs[i].0)],
                ),
                comma_joined(number_texts(refs[i].1)),
            ),
    )
}

/// The metadata of a track: its handler, its auxiliary type and its references.
pub open spec fn track_entries(t: TrackModel) -> Seq<(Seq<char>, Seq<char>)> {
    let id = decimal_chars(t.track_id as nat);
    let first = seq![(concat_chars(seq!["track:"@, id, ":handler"@]), fourcc_text(t.handler))];
    let aux = match t.sample_entries[0].aux_track_type {
        Some(a) => first.push((concat_chars(seq!["track:"@, id, ":aux_track_type"@]), a)),
        None => first,
    };
    aux + reference_entries(t.track_id, t.references)
}

fn push_track_entries(v: &mut Vec<(String, String)>, t: &Track)
    requires
        t@.sample_entries.len() > 0,
    ensures
        entries(final(v)@) == entries(old(v)@) + track_entries(t@),
{
    let ghost start = entries(v@);
    let e: &SampleEntry = &t.sample_entries[0];
    assert(t@.sample_entries[0] == e@);
    let id: String = decimal(t.track_id as u64);
    let parts: [&str; 3] = ["track:", id.as_str(), ":handler"];
    let key: String = concat(&parts);
    proof {
        assert(Seq::new(parts@.len(), |i: int| parts@[i]@) =~= seq!["track:"@, id@, ":handler"@]);
    }
    push_entry(v, key, fourcc_str(&t.handler));
    if let Some(a) = &e.aux_track_type {
        let parts: [&str; 3] = ["track:", id.as_str(), ":aux_track_type"];
        let key: String = concat(&parts);
        proof {
            assert(Seq::new(parts@.len(), |i: int| parts@[i]@) =~= seq![
                "track:"@,
                id@,
                ":aux_track_type"@,
            ]);
        }
        push_entry(v, key, text_of(a.as_str()));
    }
    let ghost head = entries(v@);
    let ghost all = reference_entries(t.track_id, t@.references);
    assert(head =~= head + all.take(0));
    for i in 0..t.references.len()
        invariant
            id@ == decimal_chars(t.track_id as nat),
            all == reference_entries(t.track_id, t@.references),
            entries(v@) == head + all.take(i as int),
    {
        let (code, ids) = &t.references[i];
        assert(t@.references[i as int] == (*code, ids@));
        let name: String = fourcc_str(code);
        let parts: [&str; 4] = ["track:", id.as_str(), ":tref:", name.as_str()];
        let key: String = concat(&parts);
        proof {
            assert(Seq::new(parts@.len(), |i: int| parts@[i]@) =~= seq![
                "track:"@,
                id@,
                ":tref:"@,
                name@,
            ]);
        }
        push_entry(v, key, join_numbers(ids));
        assert(entries(v@) =~= head + all.take(i + 1));
    }
    assert(all.take(all.len() as int) =~= all);
    assert(entries(v@) =~= start + track_entries(t@));
}

/// The streams of the tracks from `i` on.
pub open spec fn streams_from(
    tracks: Seq<TrackModel>,
    resolved: Seq<Option<Seq<char>>>,
    i: int,
) -> Seq<StreamModel>
    decreases tracks.len() - i,
{
    if 0 <= i < tracks.len() {
        (match track_codec(tracks[i], resolved[i]) {
            Some(c) => seq![track_stream(tracks[i], i, c)],
            None => Seq::empty(),
        }) + streams_from(tracks, resolved, i + 1)
    } else {
        Seq::empty()
    }
}

/// The metadata of the tracks from `i` on.
pub open spec fn entries_from(
    tracks: Seq<TrackModel>,
    resolved: Seq<Option<Seq<char>>>,
    i: int,
) -> Seq<(Seq<char>, Seq<char>)>
    decreases tracks.len() - i,
{
    if 0 <= i < tracks.len() {
        (match track_codec(tracks[i], resolved[i]) {
            Some(_) => track_entries(tracks[i]),
            None => Seq::empty(),
        }) + entries_from(tracks, resolved, i + 1)
    } else {
        Seq::empty()
    }
}

/// The streams of a file and the metadata of its container.
#[derive(Debug)]
pub struct DemuxPlan {
    /// The streams, in order.
    pub streams: Vec<StreamPlan>,
    /// Keys and values.
    pub metadata: Vec<(String, String)>,
}

/// The tracks of a movie that may be absent.
pub open spec fn tracks_of(m: Option<MovieModel>) -> Seq<TrackModel> {
    match m {
        Some(v) => v.tracks,
        None => Seq::empty(),
    }
}

/// The streams of a file: the still image first, then the tracks.
pub open spec fn all_streams(
    f: FileModel,
    m: Option<MovieModel>,
    resolved: Seq<Option<Seq<char>>>,
) -> Seq<StreamModel> {
    (match still_graph(f) {
        Some(n) => seq![still_stream(n)],
        None => Seq::empty(),
    }) + streams_from(tracks_of(m), resolved, 0)
}

/// The metadata of a file: its brands, its primary item and its tracks.
pub open spec fn all_entries(
    f: FileModel,
    m: Option<MovieModel>,
    resolved: Seq<Option<Seq<char>>>,
) -> Seq<(Seq<char>, Seq<char>)> {
    seq![
        ("major_brand"@, fourcc_text(f.file_type.major_brand)),
        ("compatible_brands"@, comma_joined(code_texts(f.file_type.compatible_brands))),
    ] + (match still_graph(f) {
        Some(n) => seq![
            ("primary_item_id"@, decimal_chars(n.item.id as nat)),
            ("primary_item_type"@, fourcc_text(n.item.item_type)),
        ],
        None => Seq::empty(),
    }) + entries_from(tracks_of(m), resolved, 0)
}

fn find_still(file: &HeifFile) -> (r: Option<ImageNode>)
    ensures
        match r {
            Some(n) => still_graph(file@) == Some(n@),
            None => still_graph(file@) is None,
        },
{
    let pictures: bool = match &file.meta {
        Some(m) => match &m.handler {
            Some(h) => fourcc_eq(&h.handler_type, &tags::PICT),
            None => false,
        },
        None => false,
    };
    if !pictures {
        return None;
    }
    match build_primary_graph(file) {
        Ok(n) => Some(n),
        Err(_) => None,
    }
}

fn plan_tracks(
    plan: &mut DemuxPlan,
    tracks: &Vec<Track>,
    resolved: &[Option<String>],
)
    requires
        resolved@.len() == tracks@.len(),
    ensures
        stream_models(final(plan).streams@) == stream_models(old(plan).streams@) + streams_from(
            tracks.deep_view(),
            optional_texts(resolved@),
            0,
        ),
        entries(final(plan).metadata@) == entries(old(plan).metadata@) + entries_from(
            tracks.deep_view(),
            optional_texts(resolved@),
            0,
        ),
{
    let ghost all = tracks.deep_view();
    let ghost ids = optional_texts(resolved@);
    let ghost streams = stream_models(plan.streams@) + streams_from(all, ids, 0);
    let ghost metadata = entries(plan.metadata@) + entries_from(all, ids, 0);
    for i in 0..tracks.len()
        invariant
            all == tracks.deep_view(),
            ids == optional_texts(resolved@),
            resolved@.len() == tracks@.len(),
            streams == stream_models(plan.streams@) + streams_from(all, ids, i as int),
            metadata == entries(plan.metadata@) + entries_from(all, ids, i as int),
    {
        let t: &Track = &tracks[i];
        let ghost before = stream_models(plan.streams@);
        let ghost known = entries(plan.metadata@);
        proof {
            assert(all[i as int] == t@);
            assert(ids[i as int] == (match resolved@[i as int] {
                Some(s) => Some(s@),
                None => None,
            }));
        }
        if t.is_visual() && t.sample_entries.len() > 0 {
            assert(t@.sample_entries[0] == t.sample_entries@[0]@);
            let codec: Option<&str> = match &resolved[i] {
                Some(c) => Some(c.as_str()),
                None => codec_id_for_entry(&t.sample_entries[0].entry_type),
            };
            if let Some(c) = codec {
                let p: StreamPlan = plan_track(t, i, c);
                plan.streams.push(p);
                push_track_entries(&mut plan.metadata, t);
                proof {
                    assert(stream_models(plan.streams@) =~= before + seq![p@]);
                }
            }
        }
        proof {
            assert(stream_models(plan.streams@) + streams_from(all, ids, i + 1) =~= before
                + streams_from(all, ids, i as int));
            assert(entries(plan.metadata@) + entries_from(all, ids, i + 1) =~= known
                + entries_from(all, ids, i as int));
        }
    }
    proof {
        assert(stream_models(plan.streams@) =~= streams);
        assert(entries(plan.metadata@) =~= metadata);
    }
}

/// The streams of a parsed file and the metadata of its container. `resolved`
/// holds, for every track of the movie, the codec id resolved for its
/// sample-entry type, when there is one.
pub fn plan_streams(
    file: &HeifFile,
    movie: Option<&Movie>,
    resolved: &[Option<String>],
) -> (r: Result<DemuxPlan>)
    requires
        resolved@.len() == (match movie {
            Some(m) => m.tracks@.len(),
            None => 0,
        }),
    ensures
        ({
            let m = match movie {
                Some(m) => Some(m@),
                None => None,
            };
            let streams = all_streams(file@, m, optional_texts(resolved@));
            match r {
                Ok(p) => {
                    &&& streams.len() > 0
                    &&& stream_models(p.streams@) == streams
                    &&& entries(p.metadata@) == all_entries(file@, m, optional_texts(resolved@))
                },
                Err(e) => streams.len() == 0 && e.kind() == ErrorKind::Unsupported,
            }
        }),
{
    let ghost m = match movie {
        Some(m) => Some(m@),
        None => None,
    };
    let ghost ids = optional_texts(resolved@);
    let mut plan: DemuxPlan = DemuxPlan { streams: Vec::new(), metadata: Vec::new() };
    push_entry(
        &mut plan.metadata,
        text_of("major_brand"),
        fourcc_str(&file.file_type.major_brand),
    );
    push_entry(
        &mut plan.metadata,
        text_of("compatible_brands"),
        join_codes(&file.file_type.compatible_brands),
    );
    let ghost brands = entries(plan.metadata@);
    assert(brands =~= seq![
        ("major_brand"@, fourcc_text(file@.file_type.major_brand)),
        ("compatible_brands"@, comma_joined(code_texts(file@.file_type.compatible_brands))),
    ]);
    if let Some(node) = find_still(file) {
        let p: StreamPlan = plan_still(&node);
        plan.streams.push(p);
        push_entry(&mut plan.metadata, text_of("primary_item_id"), decimal(node.item.id as u64));
        push_entry(
            &mut plan.metadata,
            text_of("primary_item_type"),
            fourcc_str(&node.item.item_type),
        );
    }
    let ghost stills = match still_graph(file@) {
        Some(n) => seq![still_stream(n)],
        None => Seq::empty(),
    };
    assert(stream_models(plan.streams@) =~= stills);
    let ghost items = match still_graph(file@) {
        Some(n) => seq![
            ("primary_item_id"@, decimal_chars(n.item.id as nat)),
            ("primary_item_type"@, fourcc_text(n.item.item_type)),
        ],
        None => Seq::empty(),
    };
    assert(entries(plan.metadata@) =~= brands + items);
    match movie {
        Some(mv) => {
            plan_tracks(&mut plan, &mv.tracks, resolved);
        },
        None => {
            assert(stream_models(plan.streams@) =~= stills + streams_from(tracks_of(m), ids, 0));
            assert(entries(plan.metadata@) =~= brands + items + entries_from(tracks_of(m), ids, 0));
        },
    }
    if plan.streams.len() == 0 {
        return Err(
            HeifError::unsupported(
                "file carries neither a pict meta box with a primary item nor a visual track",
            ),
        );
    }
    Ok(plan)
}

} // verus!
