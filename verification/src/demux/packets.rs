//! The packets of the streams, one by one.
use crate::bytes::copy_of;
use crate::demux::cursor::{
    movie_tracks, next_sample, Cursors, CursorsModel, NextPacket, TrackCursor,
};
use crate::demux::streams::pts_of;
use crate::error::{ErrorKind, Result};
use crate::file::HeifFile;
use crate::sequence::{at_least_one, sample_bytes, sample_of, Movie, Sample, Track, TrackModel};
use vstd::prelude::*;

verus! {

/// A packet of a stream.
#[derive(Debug, PartialEq, Eq)]
pub struct DemuxPacket {
    /// The index of the stream.
    pub stream: u32,
    /// Ticks per second of its times.
    pub timescale: u32,
    /// The payload.
    pub data: Vec<u8>,
    /// Presentation time.
    pub pts: i64,
    /// Decode time.
    pub dts: i64,
    /// Duration.
    pub duration: i64,
    /// Whether decoding can start here.
    pub keyframe: bool,
}

/// Model of [`DemuxPacket`].
#[verifier::ext_equal]
pub struct DemuxPacketModel {
    /// The index of the stream.
    pub stream: u32,
    /// Ticks per second of its times.
    pub timescale: u32,
    /// The payload.
    pub data: Seq<u8>,
    /// Presentation time.
    pub pts: i64,
    /// Decode time.
    pub dts: i64,
    /// Duration.
    pub duration: i64,
    /// Whether decoding can start here.
    pub keyframe: bool,
}

impl View for DemuxPacket {
    type V = DemuxPacketModel;

    open spec fn view(&self) -> DemuxPacketModel {
        DemuxPacketModel {
            stream: self.stream,
            timescale: self.timescale,
            data: self.data@,
            pts: self.pts,
            dts: self.dts,
            duration: self.duration,
            keyframe: self.keyframe,
        }
    }
}

/// The one packet of the still stream: the whole file.
pub open spec fn still_packet(stream: u32, file: Seq<u8>) -> DemuxPacketModel {
    DemuxPacketModel {
        stream,
        timescale: 1,
        data: file,
        pts: 0,
        dts: 0,
        duration: 1,
        keyframe: true,
    }
}

/// The packet of a sample, in the time base of its track.
pub open spec fn sample_packet(stream: u32, t: TrackModel, s: Sample, data: Seq<u8>) -> DemuxPacketModel {
    DemuxPacketModel {
        stream,
        timescale: at_least_one(t.timescale) as u32,
        data,
        pts: pts_of(s) as i64,
        dts: s.dts as i64,
        duration: s.duration as i64,
        keyframe: s.is_sync,
    }
}

impl CursorsModel {
    /// The stream of the still image, when its packet is the next one.
    pub open spec fn still_due(self) -> Option<u32> {
        match self.still_stream {
            Some(s) => if self.still_pending && self.reads(s) {
                Some(s)
            } else {
                None
            },
            None => None,
        }
    }

    /// The cursors once the still image was considered.
    pub open spec fn past_still(self) -> CursorsModel {
        CursorsModel { still_pending: false, ..self }
    }

    /// The cursors with the next sample of track stream `i` taken.
    pub open spec fn taken(self, i: int) -> CursorsModel {
        CursorsModel {
            tracks: self.tracks.update(
                i,
                TrackCursor { cursor: (self.tracks[i].cursor + 1) as usize, ..self.tracks[i] },
            ),
            ..self
        }
    }

    /// How many samples the first `n` track streams still have to give.
    pub open spec fn left(self, tracks: Seq<TrackModel>, n: int) -> nat
        decreases n,
    {
        if 0 < n <= self.tracks.len() {
            self.left(tracks, n - 1) + (match self.due(n - 1, tracks) {
                Some(_) => (tracks[self.tracks[n - 1].track as int].samples.len()
                    - self.tracks[n - 1].cursor) as nat,
                None => 0,
            })
        } else {
            0
        }
    }
}

/// The packet that track stream `i` gives next.
pub open spec fn packet_of(c: CursorsModel, tracks: Seq<TrackModel>, file: Seq<u8>, i: int) -> core::result::Result<
    DemuxPacketModel,
    ErrorKind,
> {
    let t = tracks[c.tracks[i].track as int];
    let s = t.samples[c.tracks[i].cursor as int];
    match sample_of(file, s) {
        Ok(data) => Ok(sample_packet(c.tracks[i].stream, t, s, data)),
        Err(e) => Err(e),
    }
}

impl Cursors {
    /// The next packet: the whole file for the still stream first, then the
    /// samples in the order of their decode times; `None` when nothing is left.
    /// A sample that is not in the file stays where it is.
    pub fn next_packet(&mut self, file: &HeifFile, movie: Option<&Movie>) -> (r: Result<
        Option<DemuxPacket>,
    >)
        ensures
            match old(self)@.still_due() {
                Some(s) => {
                    &&& r matches Ok(Some(p)) && p@ == still_packet(s, file@.data)
                    &&& final(self)@ == old(self)@.past_still()
                },
                None => match r {
                    Ok(None) => {
                        &&& old(self)@.exhausted(movie_tracks(movie))
                        &&& final(self)@ == old(self)@.past_still()
                    },
                    Ok(Some(p)) => exists|i: int|
                        {
                            &&& #[trigger] old(self)@.comes_next(i, movie_tracks(movie))
                            &&& packet_of(old(self)@, movie_tracks(movie), file@.data, i) == Ok::<
                                DemuxPacketModel,
                                ErrorKind,
                            >(p@)
                            &&& final(self)@ == old(self)@.past_still().taken(i)
                        },
                    Err(e) => exists|i: int|
                        {
                            &&& #[trigger] old(self)@.comes_next(i, movie_tracks(movie))
                            &&& packet_of(old(self)@, movie_tracks(movie), file@.data, i) == Err::<
                                DemuxPacketModel,
                                ErrorKind,
                            >(e.kind())
                            &&& final(self)@ == old(self)@.past_still()
                        },
                },
            },
    {
        match self.next(movie) {
            NextPacket::Still(stream) => Ok(
                Some(
                    DemuxPacket {
                        stream,
                        timescale: 1,
                        data: copy_of(file.bytes()),
                        pts: 0,
                        dts: 0,
                        duration: 1,
                        keyframe: true,
                    },
                ),
            ),
            NextPacket::Sample(slot) => {
                let at: TrackCursor = self.tracks[slot];
                match movie {
                    None => Ok(None),
                    Some(m) => {
                        let t: &Track = &m.tracks[at.track];
                        assert(m@.tracks[at.track as int] == t@);
                        let s: Sample = t.samples[at.cursor];
                        let data: Vec<u8> = copy_of(sample_bytes(file, &s)?);
                        assert(at.cursor < t.samples.len());
                        self.advance(slot);
                        Ok(
                            Some(
                                DemuxPacket {
                                    stream: at.stream,
                                    timescale: if t.timescale == 0 {
                                        1
                                    } else {
                                        t.timescale
                                    },
                                    data,
                                    pts: s.pts() as i64,
                                    dts: s.dts as i64,
                                    duration: s.duration as i64,
                                    keyframe: s.is_sync,
                                },
                            ),
                        )
                    },
                }
            },
            NextPacket::End => Ok(None),
        }
    }
}

proof fn lemma_left_bounds(c: CursorsModel, tracks: Seq<TrackModel>, n: int, k: int)
    requires
        0 <= k < n <= c.tracks.len(),
        c.due(k, tracks) is Some,
    ensures
        c.left(tracks, n) > 0,
    decreases n,
{
    if k < n - 1 {
        lemma_left_bounds(c, tracks, n - 1, k);
    }
}

proof fn lemma_left_zero(c: CursorsModel, tracks: Seq<TrackModel>, n: int)
    requires
        0 <= n <= c.tracks.len(),
        forall|k: int| 0 <= k < n ==> #[trigger] c.due(k, tracks) is None,
    ensures
        c.left(tracks, n) == 0,
    decreases n,
{
    if n > 0 {
        lemma_left_zero(c, tracks, n - 1);
        assert(c.due(n - 1, tracks) is None);
    }
}

proof fn lemma_left_taken(c: CursorsModel, tracks: Seq<TrackModel>, i: int, n: int)
    requires
        0 <= i < c.tracks.len(),
        0 <= n <= c.tracks.len(),
        c.due(i, tracks) is Some,
        c.tracks[i].cursor < usize::MAX,
    ensures
        c.taken(i).left(tracks, n) == c.left(tracks, n) - (if i < n {
            1int
        } else {
            0
        }),
    decreases n,
{
    if n > 0 {
        lemma_left_taken(c, tracks, i, n - 1);
        let d = c.taken(i);
        assert(d.reads(d.tracks[n - 1].stream) == c.reads(c.tracks[n - 1].stream));
        assert(d.due(n - 1, tracks) == (if c.reads(c.tracks[n - 1].stream) {
            next_sample(d.tracks[n - 1], tracks)
        } else {
            None
        }));
    }
}

/// Every packet of a track stream takes exactly one sample from what is left: the
/// stream is then at its following sample, the other streams are where they were,
/// and one sample less is left over all of them.
#[verifier::rlimit(50)]
pub proof fn law_one_sample_each(c: CursorsModel, tracks: Seq<TrackModel>, i: int)
    requires
        c.comes_next(i, tracks),
        c.tracks[i].cursor < usize::MAX,
    ensures
        c.taken(i).tracks[i].cursor == c.tracks[i].cursor + 1,
        forall|j: int|
            0 <= j < c.tracks.len() && j != i ==> #[trigger] c.taken(i).due(j, tracks) == c.due(
                j,
                tracks,
            ),
        c.taken(i).left(tracks, c.tracks.len() as int) == c.left(tracks, c.tracks.len() as int) - 1,
{
    lemma_left_taken(c, tracks, i, c.tracks.len() as int);
}

/// Packets come for as long as samples are left: there is a next one exactly when
/// the streams that are read have not given all of theirs.
#[verifier::rlimit(50)]
pub proof fn law_read_to_the_end(c: CursorsModel, tracks: Seq<TrackModel>)
    ensures
        c.exhausted(tracks) <==> c.left(tracks, c.tracks.len() as int) == 0,
{
    if c.exhausted(tracks) {
        lemma_left_zero(c, tracks, c.tracks.len() as int);
    } else {
        let j = choose|j: int| 0 <= j < c.tracks.len() && !(#[trigger] c.due(j, tracks) is None);
        lemma_left_bounds(c, tracks, c.tracks.len() as int, j);
    }
}

} // verus!
