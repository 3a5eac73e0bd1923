//! Laws of reading a file packet by packet.
use crate::boxes::FourCc;
use crate::demux::cursor::{movie_micros, CursorsModel};
use crate::demux::packets::{packet_of, DemuxPacketModel};
use crate::demux::streams::{known_codec, track_stream};
use crate::error::ErrorKind;
use crate::sequence::{MovieModel, TrackModel};
use vstd::prelude::*;

verus! {

/// The duration of a movie in microseconds is its duration over its timescale, a
/// millionth rounded down.
pub proof fn law_movie_duration(m: MovieModel)
    requires
        m.timescale > 0,
        m.duration * 1000000 <= i64::MAX,
    ensures
        movie_micros(m) matches Some(v) && 0 <= v * m.timescale <= m.duration * 1000000 && m.duration
            * 1000000 < (v + 1) * m.timescale,
{
    let (n, d) = (m.duration * 1000000, m.timescale as int);
    let q = n / d;
    vstd::arithmetic::div_mod::lemma_fundamental_div_mod(n, d);
    assert(d * q == q * d && (q + 1) * d == q * d + d) by (nonlinear_arith);
    assert(0 <= q <= n && 0 <= q * d) by (nonlinear_arith)
        requires
            q == n / d,
            0 <= n,
            1 <= d,
    ;
}

/// The packet of a sample holds its bytes of the file and its times, in the ticks of its
/// track: decode time, presentation time (the decode time and the composition offset),
/// duration; and a sync sample is a key frame.
pub proof fn law_packet_of_sample(
    c: CursorsModel,
    tracks: Seq<TrackModel>,
    file: Seq<u8>,
    i: int,
    p: DemuxPacketModel,
)
    requires
        packet_of(c, tracks, file, i) == Ok::<DemuxPacketModel, ErrorKind>(p),
    ensures
        ({
            let t = tracks[c.tracks[i].track as int];
            let s = t.samples[c.tracks[i].cursor as int];
            &&& p.stream == c.tracks[i].stream
            &&& t.timescale > 0 ==> p.timescale == t.timescale
            &&& t.timescale == 0 ==> p.timescale == 1
            &&& p.data.len() == s.size
            &&& forall|k: int| 0 <= k < s.size ==> #[trigger] p.data[k] == file[s.offset + k]
            &&& s.dts <= i64::MAX ==> p.dts == s.dts
            &&& 0 <= s.dts + s.cts_offset <= i64::MAX ==> p.pts == s.dts + s.cts_offset
            &&& s.dts + s.cts_offset < 0 ==> p.pts == 0
            &&& p.duration == s.duration
            &&& p.keyframe == s.is_sync
        }),
{
}

/// The sample that comes next is decoded at no later time than the next sample of any
/// other stream that is read, in seconds. (A timescale of 0 is taken as 1.)
pub proof fn law_next_is_earliest(c: CursorsModel, tracks: Seq<TrackModel>, i: int, j: int)
    requires
        c.comes_next(i, tracks),
        0 <= j < c.tracks.len(),
        c.due(j, tracks) is Some,
    ensures
        ({
            let (a, b) = (c.due(i, tracks)->0, c.due(j, tracks)->0);
            let (ta, tb) = (
                tracks[c.tracks[i].track as int].timescale as int,
                tracks[c.tracks[j].track as int].timescale as int,
            );
            ta > 0 && tb > 0 ==> a.dts * tb <= b.dts * ta
        }),
{
    assert(!c.earlier(j, i, tracks));
}

/// Reading the next sample of a stream moves this stream one sample on, and no other.
pub proof fn law_taken_moves_one(c: CursorsModel, i: int, j: int)
    requires
        0 <= i < c.tracks.len(),
        0 <= j < c.tracks.len(),
        c.tracks[i].cursor < usize::MAX,
    ensures
        c.taken(i).tracks.len() == c.tracks.len(),
        c.taken(i).tracks[j].stream == c.tracks[j].stream,
        c.taken(i).tracks[j].track == c.tracks[j].track,
        c.taken(i).tracks[j].cursor == c.tracks[j].cursor + (if i == j {
            1int
        } else {
            0
        }),
        c.taken(i).still_pending == c.still_pending,
        c.taken(i).active == c.active,
{
}

/// The stream of a track has the size of its first sample entry, the ticks and the duration
/// of the track, and starts when its first sample is presented.
pub proof fn law_stream_of_track(t: TrackModel, index: int, codec: Seq<char>)
    requires
        t.sample_entries.len() > 0,
        0 <= index <= usize::MAX,
    ensures
        ({
            let s = track_stream(t, index, codec);
            let e = t.sample_entries[0];
            &&& s.codec_id == codec
            &&& s.size == Some((e.width as u32, e.height as u32))
            &&& s.tag == Some(e.entry_type)
            &&& s.track == Some(index as usize)
            &&& t.timescale > 0 ==> s.timescale == t.timescale
            &&& t.duration <= i64::MAX ==> s.duration == t.duration
            &&& t.samples.len() == 0 ==> s.start_time is None
            &&& t.samples.len() > 0 ==> {
                let x = t.samples[0];
                0 <= x.dts + x.cts_offset <= i64::MAX ==> s.start_time == Some(
                    (x.dts + x.cts_offset) as i64,
                )
            }
            &&& e.hvcc matches Some(h) ==> s.extradata == h.raw
            &&& e.hvcc is None ==> (e.av1c matches Some(a) ==> s.extradata == a.raw)
        }),
{
}

/// The codecs of the sample entry types, by their letters: HEVC for `hvc1`, `hev1`, `hvc2` and
/// `hev2`, AV1 for `av01`, AVC for `avc1` and `avc3`; no other type is known.
pub proof fn law_known_codecs(t: FourCc)
    ensures
        known_codec(t) == Some(crate::decode::CODEC_ID_HEVC@) <== (t == [0x68u8, 0x76, 0x63, 0x31] || t
            == [0x68u8, 0x65, 0x76, 0x31] || t == [0x68u8, 0x76, 0x63, 0x32] || t
            == [0x68u8, 0x65, 0x76, 0x32]),
        known_codec(t) == Some(crate::decode::CODEC_ID_AV1@) <== t == [0x61u8, 0x76, 0x30, 0x31],
        known_codec(t) == Some(crate::decode::CODEC_ID_AVC@) <== (t == [0x61u8, 0x76, 0x63, 0x31] || t
            == [0x61u8, 0x76, 0x63, 0x33]),
{
    assert(crate::tags::HVC1 =~= [0x68u8, 0x76, 0x63, 0x31]);
    assert(crate::tags::HEV1 =~= [0x68u8, 0x65, 0x76, 0x31]);
    assert(crate::tags::HVC2 =~= [0x68u8, 0x76, 0x63, 0x32]);
    assert(crate::tags::HEV2 =~= [0x68u8, 0x65, 0x76, 0x32]);
    assert(crate::tags::AV01 =~= [0x61u8, 0x76, 0x30, 0x31]);
    assert(crate::tags::AVC1 =~= [0x61u8, 0x76, 0x63, 0x31]);
    assert(crate::tags::AVC3 =~= [0x61u8, 0x76, 0x63, 0x33]);
    assert(crate::tags::AV01[0] != crate::tags::HVC1[0] && crate::tags::AV01[2] != crate::tags::AVC1[2]);
}

} // verus!
