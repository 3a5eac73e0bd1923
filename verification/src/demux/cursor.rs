//! Which packet of which stream comes next.
use crate::demux::streams::pts_of;
use crate::error::{ErrorKind, HeifError, Result};
use crate::sequence::{at_least_one, Movie, MovieModel, Sample, Track, TrackModel};
use vstd::prelude::*;

verus! {

/// The place of a track stream: the next sample of its track.
#[derive(Clone, Copy, Debug)]
pub struct TrackCursor {
    /// Stream index.
    pub stream: u32,
    /// Index of the track in the movie.
    pub track: usize,
    /// Index of the next sample.
    pub cursor: usize,
}

/// What is left to read of a file: the still image, and the samples of the
/// tracks.
#[derive(Debug)]
pub struct Cursors {
    /// Stream of the still image.
    pub still_stream: Option<u32>,
    /// Whether the still image was not read yet.
    pub still_pending: bool,
    /// The track streams.
    pub tracks: Vec<TrackCursor>,
    /// The streams that are read, all when `None`.
    pub active: Option<Vec<u32>>,
}

/// Model of [`Cursors`].
#[verifier::ext_equal]
pub struct CursorsModel {
    /// Stream of the still image.
    pub still_stream: Option<u32>,
    /// Whether the still image was not read yet.
    pub still_pending: bool,
    /// The track streams.
    pub tracks: Seq<TrackCursor>,
    /// The streams that are read.
    pub active: Option<Seq<u32>>,
}

impl View for Cursors {
    type V = CursorsModel;

    open spec fn view(&self) -> CursorsModel {
        CursorsModel {
            still_stream: self.still_stream,
            still_pending: self.still_pending,
            tracks: self.tracks@,
            active: match self.active {
                Some(v) => Some(v@),
                None => None,
            },
        }
    }
}

/// The next packet.
#[derive(Clone, Copy, Debug, PartialEq, Eq)]
pub enum NextPacket {
    /// The whole file, as the packet of the still stream.
    Still(u32),
    /// A sample of a track stream: its place among the track streams.
    Sample(usize),
    /// Nothing is left.
    End,
}

/// The next sample of a track stream.
pub open spec fn next_sample(c: TrackCursor, tracks: Seq<TrackModel>) -> Option<Sample> {
    if c.track < tracks.len() && c.cursor < tracks[c.track as int].samples.len() {
        Some(tracks[c.track as int].samples[c.cursor as int])
    } else {
        None
    }
}

/// Whether sample `a` of a track with `ta` ticks per second is decoded before
/// sample `b` of one with `tb`.
pub open spec fn decoded_before(a: Sample, ta: u32, b: Sample, tb: u32) -> bool {
    a.dts * at_least_one(tb) < b.dts * at_least_one(ta)
}

impl CursorsModel {
    /// Whether a stream is read.
    pub open spec fn reads(self, stream: u32) -> bool {
        match self.active {
            Some(v) => v.contains(stream),
            None => true,
        }
    }

    /// The next sample of track stream `i`, if that stream is read.
    pub open spec fn due(self, i: int, tracks: Seq<TrackModel>) -> Option<Sample> {
        if self.reads(self.tracks[i].stream) {
            next_sample(self.tracks[i], tracks)
        } else {
            None
        }
    }

    /// Whether track stream `i` is decoded before track stream `j`.
    pub open spec fn earlier(self, i: int, j: int, tracks: Seq<TrackModel>) -> bool {
        match (self.due(i, tracks), self.due(j, tracks)) {
            (Some(a), Some(b)) => decoded_before(
                a,
                tracks[self.tracks[i].track as int].timescale,
                b,
                tracks[self.tracks[j].track as int].timescale,
            ),
            _ => false,
        }
    }

    /// Whether track stream `i` comes next: it has a sample, none of the others
    /// has an earlier one, and no stream before it one of the same time.
    pub open spec fn comes_next(self, i: int, tracks: Seq<TrackModel>) -> bool {
        &&& 0 <= i < self.tracks.len()
        &&& self.due(i, tracks) is Some
        &&& forall|j: int|
            0 <= j < self.tracks.len() ==> !(#[trigger] self.earlier(j, i, tracks))
        &&& forall|j: int|
            0 <= j < i && #[trigger] self.due(j, tracks) is Some ==> self.earlier(i, j, tracks)
    }

    /// Whether no track stream has a sample left.
    pub open spec fn exhausted(self, tracks: Seq<TrackModel>) -> bool {
        forall|j: int| 0 <= j < self.tracks.len() ==> #[trigger] self.due(j, tracks) is None
    }

    /// The first track stream from `i` on with the given index.
    pub open spec fn slot_of(self, stream: u32, i: int) -> Option<int>
        decreases self.tracks.len() - i,
    {
        if 0 <= i < self.tracks.len() {
            if self.tracks[i].stream == stream {
                Some(i)
            } else {
                self.slot_of(stream, i + 1)
            }
        } else {
            None
        }
    }
}

/// The tracks of a movie that may be absent.
pub open spec fn movie_tracks(m: Option<&Movie>) -> Seq<TrackModel> {
    match m {
        Some(v) => v@.tracks,
        None => Seq::empty(),
    }
}

/// The last sync sample at or before `target` among the first `n`, the first
/// sample when there is none.
pub open spec fn sync_by(s: Seq<Sample>, target: u64, n: int) -> int
    decreases n,
{
    if n <= 0 {
        0
    } else if s[n - 1].is_sync && pts_of(s[n - 1]) <= target {
        n - 1
    } else {
        sync_by(s, target, n - 1)
    }
}

fn listed(v: &Vec<u32>, x: u32) -> (r: bool)
    ensures
        r == v@.contains(x),
{
    for i in 0..v.len()
        invariant
            forall|j: int| 0 <= j < i ==> #[trigger] v@[j] != x,
    {
        if v[i] == x {
            assert(v@[i as int] == x);
            return true;
        }
    }
    false
}

/// Earlier-than is transitive in its second argument where neither is earlier.
proof fn lemma_order(a: Sample, ta: u32, b: Sample, tb: u32, c: Sample, tc: u32)
    ensures
        decoded_before(a, ta, b, tb) && !decoded_before(c, tc, b, tb) ==> decoded_before(
            a,
            ta,
            c,
            tc,
        ),
        decoded_before(a, ta, b, tb) && decoded_before(b, tb, c, tc) ==> decoded_before(
            a,
            ta,
            c,
            tc,
        ),
        !decoded_before(a, ta, b, tb) && !decoded_before(b, tb, c, tc) ==> !decoded_before(
            a,
            ta,
            c,
            tc,
        ),
{
    let (x, y, z) = (at_least_one(ta), at_least_one(tb), at_least_one(tc));
    let (p, q, r) = (a.dts as int, b.dts as int, c.dts as int);
    assert(x > 0 && y > 0 && z > 0);
    if p * y < q * x && !(r * y < q * z) {
        assert(p * z < r * x) by (nonlinear_arith)
            requires
                p * y < q * x,
                q * z <= r * y,
                x > 0,
                y > 0,
                z > 0,
                p >= 0,
                q >= 0,
                r >= 0,
        {
            assert((p * y) * z < (q * x) * z);
            assert((q * z) * x <= (r * y) * x);
            assert((p * z) * y < (r * x) * y);
        }
    }
    if p * y < q * x && q * z < r * y {
        assert(p * z < r * x) by (nonlinear_arith)
            requires
                p * y < q * x,
                q * z < r * y,
                x > 0,
                y > 0,
                z > 0,
        {
            assert((p * y) * z < (q * x) * z);
            assert((q * z) * x < (r * y) * x);
            assert((p * z) * y < (r * x) * y);
        }
    }
    if !(p * y < q * x) && !(q * z < r * y) {
        assert(r * x <= p * z) by (nonlinear_arith)
            requires
                q * x <= p * y,
                r * y <= q * z,
                x > 0,
                y > 0,
                z > 0,
        {
            assert((q * x) * z <= (p * y) * z);
            assert((r * y) * x <= (q * z) * x);
            assert((r * x) * y <= (p * z) * y);
        }
    }
}

impl Cursors {
    /// Nothing was read yet: the still stream and the track streams, each as
    /// stream index and track index.
    pub fn new(still_stream: Option<u32>, tracks: &[(u32, usize)]) -> (r: Self)
        ensures
            r@ == (CursorsModel {
                still_stream,
                still_pending: still_stream is Some,
                tracks: Seq::new(
                    tracks@.len(),
                    |i: int| TrackCursor { stream: tracks@[i].0, track: tracks@[i].1, cursor: 0 },
                ),
                active: None,
            }),
    {
        let mut v: Vec<TrackCursor> = Vec::new();
        for i in 0..tracks.len()
            invariant
                v@.len() == i,
                forall|k: int|
                    0 <= k < i ==> #[trigger] v@[k] == (TrackCursor {
                        stream: tracks@[k].0,
                        track: tracks@[k].1,
                        cursor: 0,
                    }),
        {
            let (stream, track): (u32, usize) = tracks[i];
            v.push(TrackCursor { stream, track, cursor: 0 });
        }
        let r: Cursors = Cursors {
            still_stream,
            still_pending: still_stream.is_some(),
            tracks: v,
            active: None,
        };
        assert(r@ =~= CursorsModel {
            still_stream,
            still_pending: still_stream is Some,
            tracks: Seq::new(
                tracks@.len(),
                |i: int| TrackCursor { stream: tracks@[i].0, track: tracks@[i].1, cursor: 0 },
            ),
            active: None,
        });
        r
    }

    fn is_active(&self, stream: u32) -> (r: bool)
        ensures
            r == self@.reads(stream),
    {
        match &self.active {
            Some(v) => listed(v, stream),
            None => true,
        }
    }

    /// Read only the streams with the given indices.
    pub fn set_active(&mut self, indices: &[u32])
        ensures
            final(self)@ == (CursorsModel { active: Some(indices@), ..old(self)@ }),
    {
        let mut v: Vec<u32> = Vec::new();
        for i in 0..indices.len()
            invariant
                v@ == indices@.take(i as int),
        {
            v.push(indices[i]);
            assert(v@ =~= indices@.take(i + 1));
        }
        assert(v@ =~= indices@);
        self.active = Some(v);
    }

    fn due_sample(&self, i: usize, movie: Option<&Movie>) -> (r: Option<(Sample, u32)>)
        requires
            i < self.tracks@.len(),
        ensures
            match r {
                Some(x) => {
                    &&& self@.due(i as int, movie_tracks(movie)) == Some(x.0)
                    &&& x.1 == movie_tracks(movie)[self@.tracks[i as int].track as int].timescale
                },
                None => self@.due(i as int, movie_tracks(movie)) is None,
            },
    {
        let c: TrackCursor = self.tracks[i];
        if !self.is_active(c.stream) {
            return None;
        }
        match movie {
            None => None,
            Some(m) => if c.track < m.tracks.len() {
                let t: &Track = &m.tracks[c.track];
                assert(m@.tracks[c.track as int] == t@);
                if c.cursor < t.samples.len() {
                    Some((t.samples[c.cursor], t.timescale))
                } else {
                    None
                }
            } else {
                None
            },
        }
    }

    fn earliest(&self, movie: Option<&Movie>) -> (r: Option<usize>)
        ensures
            match r {
                Some(i) => self@.comes_next(i as int, movie_tracks(movie)),
                None => self@.exhausted(movie_tracks(movie)),
            },
    {
        let ghost c = self@;
        let ghost tr = movie_tracks(movie);
        let mut best: Option<(usize, Sample, u32)> = None;
        for i in 0..self.tracks.len()
            invariant
                c == self@,
                tr == movie_tracks(movie),
                match best {
                    None => forall|j: int| 0 <= j < i ==> #[trigger] c.due(j, tr) is None,
                    Some(b) => {
                        &&& b.0 < i
                        &&& c.due(b.0 as int, tr) == Some(b.1)
                        &&& b.2 == tr[c.tracks[b.0 as int].track as int].timescale
                        &&& forall|j: int|
                            0 <= j < i ==> !(#[trigger] c.earlier(j, b.0 as int, tr))
                        &&& forall|j: int|
                            0 <= j < b.0 && #[trigger] c.due(j, tr) is Some ==> c.earlier(
                                b.0 as int,
                                j,
                                tr,
                            )
                    },
                },
        {
            let ghost before = best;
            if let Some((s, t)) = self.due_sample(i, movie) {
                let first: bool = match &best {
                    None => true,
                    Some((_, bs, bt)) => {
                        let here: u32 = if t == 0 {
                            1
                        } else {
                            t
                        };
                        let there: u32 = if *bt == 0 {
                            1
                        } else {
                            *bt
                        };
                        proof {
                            assert(s.dts * there <= 0xffff_ffff_ffff_ffff * 0xffff_ffff)
                                by (nonlinear_arith)
                                requires
                                    0 <= s.dts <= 0xffff_ffff_ffff_ffff,
                                    0 <= there <= 0xffff_ffff,
                            ;
                            assert(bs.dts * here <= 0xffff_ffff_ffff_ffff * 0xffff_ffff)
                                by (nonlinear_arith)
                                requires
                                    0 <= bs.dts <= 0xffff_ffff_ffff_ffff,
                                    0 <= here <= 0xffff_ffff,
                            ;
                        }
                        (s.dts as u128 * there as u128) < (bs.dts as u128 * here as u128)
                    },
                };
                if first {
                    best = Some((i, s, t));
                    proof {
                        match before {
                            None => {},
                            Some(b) => {
                                assert(c.earlier(i as int, b.0 as int, tr));
                                assert forall|j: int| 0 <= j < i + 1 implies !(#[trigger] c.earlier(
                                    j,
                                    i as int,
                                    tr,
                                )) by {
                                    if let Some(sj) = c.due(j, tr) {
                                        let tj = tr[c.tracks[j].track as int].timescale;
                                        lemma_order(s, t, b.1, b.2, sj, tj);
                                        lemma_order(sj, tj, s, t, b.1, b.2);
                                        assert(!c.earlier(j, b.0 as int, tr) || j == i);
                                    }
                                }
                                assert forall|j: int|
                                    0 <= j < i && #[trigger] c.due(j, tr) is Some implies c.earlier(
                                    i as int,
                                    j,
                                    tr,
                                ) by {
                                    let sj = c.due(j, tr)->Some_0;
                                    let tj = tr[c.tracks[j].track as int].timescale;
                                    assert(!c.earlier(j, b.0 as int, tr));
                                    lemma_order(s, t, b.1, b.2, sj, tj);
                                }
                            },
                        }
                    }
                } else {
                    proof {
                        let b = before->Some_0;
                        assert(!c.earlier(i as int, b.0 as int, tr));
                    }
                }
            } else {
                proof {
                    if let Some(b) = before {
                        assert(!c.earlier(i as int, b.0 as int, tr));
                    }
                }
            }
        }
        match best {
            Some(b) => Some(b.0),
            None => None,
        }
    }

    /// The next packet: the still image first, then the sample of the earliest
    /// decode time (in seconds) among the streams that are read, the first of
    /// them for equal times. The still image is not pending any more; a sample
    /// stays due until [`Cursors::advance`].
    pub fn next(&mut self, movie: Option<&Movie>) -> (r: NextPacket)
        ensures
            final(self)@ == (CursorsModel { still_pending: false, ..old(self)@ }),
            match r {
                NextPacket::Still(s) => old(self)@.still_pending && old(self)@.still_stream == Some(
                    s,
                ) && old(self)@.reads(s),
                NextPacket::Sample(i) => old(self)@.comes_next(i as int, movie_tracks(movie)),
                NextPacket::End => old(self)@.exhausted(movie_tracks(movie)),
            },
            old(self)@.still_pending && (old(self)@.still_stream matches Some(s) && old(
                self,
            )@.reads(s)) ==> r is Still,
    {
        let pending: bool = self.still_pending;
        self.still_pending = false;
        if pending {
            if let Some(s) = self.still_stream {
                if self.is_active(s) {
                    assert(self@ =~= CursorsModel { still_pending: false, ..old(self)@ });
                    return NextPacket::Still(s);
                }
            }
        }
        proof {
            assert(self@ =~= CursorsModel { still_pending: false, ..old(self)@ });
            lemma_same_order(self@, old(self)@, movie_tracks(movie));
        }
        match self.earliest(movie) {
            Some(i) => NextPacket::Sample(i),
            None => NextPacket::End,
        }
    }

    /// Take the next sample of a track stream.
    pub fn advance(&mut self, slot: usize)
        requires
            slot < old(self).tracks@.len(),
            old(self).tracks@[slot as int].cursor < usize::MAX,
        ensures
            final(self)@ == (CursorsModel {
                tracks: old(self)@.tracks.update(
                    slot as int,
                    TrackCursor {
                        cursor: (old(self)@.tracks[slot as int].cursor + 1) as usize,
                        ..old(self)@.tracks[slot as int]
                    },
                ),
                ..old(self)@
            }),
    {
        let c: TrackCursor = self.tracks[slot];
        self.tracks.set(
            slot,
            TrackCursor { stream: c.stream, track: c.track, cursor: c.cursor + 1 },
        );
    }

    fn find_slot(&self, stream: u32) -> (r: Option<usize>)
        ensures
            match r {
                Some(i) => self@.slot_of(stream, 0) == Some(i as int) && i < self.tracks@.len(),
                None => self@.slot_of(stream, 0) is None,
            },
    {
        let ghost goal = self@.slot_of(stream, 0);
        for i in 0..self.tracks.len()
            invariant
                goal == self@.slot_of(stream, 0),
                goal == self@.slot_of(stream, i as int),
        {
            if self.tracks[i].stream == stream {
                return Some(i);
            }
        }
        None
    }

    /// Go to the last sync sample at or before `pts` of a track stream (to its
    /// first sample when there is none), or back to the still image; the time
    /// that was reached.
    pub fn seek_to(&mut self, stream: u32, pts: i64, movie: Option<&Movie>) -> (r: Result<i64>)
        ensures
            if old(self)@.still_stream == Some(stream) {
                &&& r == Ok::<i64, HeifError>(0)
                &&& final(self)@ == (CursorsModel { still_pending: true, ..old(self)@ })
            } else {
                match old(self)@.slot_of(stream, 0) {
                    None => {
                        &&& r matches Err(e) && e.kind() == ErrorKind::Invalid
                        &&& final(self)@ == old(self)@
                    },
                    Some(i) => {
                        let c = old(self)@.tracks[i];
                        let tracks = movie_tracks(movie);
                        let samples = if c.track < tracks.len() {
                            tracks[c.track as int].samples
                        } else {
                            Seq::empty()
                        };
                        let target: u64 = if pts < 0 {
                            0
                        } else {
                            pts as u64
                        };
                        let at = sync_by(samples, target, samples.len() as int);
                        &&& r == Ok::<i64, HeifError>(
                            if at < samples.len() {
                                pts_of(samples[at]) as i64
                            } else {
                                0
                            },
                        )
                        &&& final(self)@ == (CursorsModel {
                            tracks: old(self)@.tracks.update(
                                i,
                                TrackCursor { cursor: at as usize, ..c },
                            ),
                            ..old(self)@
                        })
                    },
                }
            },
    {
        if let Some(s) = self.still_stream {
            if s == stream {
                self.still_pending = true;
                return Ok(0);
            }
        }
        let slot: usize = match self.find_slot(stream) {
            Some(i) => i,
            None => {
                return Err(HeifError::invalid("no such stream"));
            },
        };
        let c: TrackCursor = self.tracks[slot];
        let target: u64 = if pts < 0 {
            0
        } else {
            pts as u64
        };
        let (at, landed): (usize, i64) = match movie {
            None => (0, 0),
            Some(m) => if c.track < m.tracks.len() {
                let t: &Track = &m.tracks[c.track];
                assert(m@.tracks[c.track as int] == t@);
                let at: usize = find_sync(&t.samples, target);
                if at < t.samples.len() {
                    (at, t.samples[at].pts() as i64)
                } else {
                    (at, 0)
                }
            } else {
                (0, 0)
            },
        };
        self.tracks.set(slot, TrackCursor { stream: c.stream, track: c.track, cursor: at });
        Ok(landed)
    }
}

fn find_sync(samples: &Vec<Sample>, target: u64) -> (r: usize)
    ensures
        r == sync_by(samples@, target, samples@.len() as int),
{
    let mut chosen: usize = 0;
    for i in 0..samples.len()
        invariant
            chosen == sync_by(samples@, target, i as int),
    {
        if samples[i].is_sync && samples[i].pts() <= target {
            chosen = i;
        }
    }
    chosen
}

/// The order of the track streams does not depend on the still image.
proof fn lemma_same_order(a: CursorsModel, b: CursorsModel, tracks: Seq<TrackModel>)
    requires
        a.tracks == b.tracks,
        a.active == b.active,
    ensures
        forall|i: int| a.comes_next(i, tracks) ==> b.comes_next(i, tracks),
        a.exhausted(tracks) ==> b.exhausted(tracks),
{
    assert forall|i: int| a.comes_next(i, tracks) implies b.comes_next(i, tracks) by {
        assert forall|j: int| 0 <= j < b.tracks.len() implies !(#[trigger] b.earlier(j, i, tracks)) by {
            assert(!a.earlier(j, i, tracks));
        }
        assert forall|j: int|
            0 <= j < i && #[trigger] b.due(j, tracks) is Some implies b.earlier(i, j, tracks) by {
            assert(a.due(j, tracks) is Some);
            assert(a.earlier(i, j, tracks));
        }
    }
    if a.exhausted(tracks) {
        assert forall|j: int| 0 <= j < b.tracks.len() implies #[trigger] b.due(j, tracks) is None by {
            assert(a.due(j, tracks) is None);
        }
    }
}

/// The duration of a movie in microseconds.
pub open spec fn movie_micros(m: MovieModel) -> Option<i64> {
    if m.timescale == 0 {
        None
    } else {
        Some((m.duration * 1000000 / (m.timescale as int)) as i64)
    }
}

/// Duration of a movie in microseconds, `None` without a timescale.
pub fn duration_micros(movie: &Movie) -> (r: Option<i64>)
    ensures
        r == movie_micros(movie@),
{
    if movie.timescale == 0 {
        return None;
    }
    Some((movie.duration as u128 * 1_000_000 / movie.timescale as u128) as i64)
}

/// Two track streams never both come next.
#[verifier::rlimit(50)]
pub proof fn law_one_next(c: CursorsModel, tracks: Seq<TrackModel>, i: int, j: int)
    requires
        c.comes_next(i, tracks),
        c.comes_next(j, tracks),
    ensures
        i == j,
{
    if i < j {
        assert(c.due(i, tracks) is Some);
        assert(c.earlier(j, i, tracks));
    } else if j < i {
        assert(c.due(j, tracks) is Some);
        assert(c.earlier(i, j, tracks));
    }
}

/// A seek reaches a sync sample at or before the target whenever there is one,
/// and none after it is in reach.
#[verifier::rlimit(50)]
pub proof fn law_seek_lands_on_sync(s: Seq<Sample>, target: u64, n: int)
    requires
        0 <= n <= s.len(),
    ensures
        forall|k: int|
            0 <= k < n && (#[trigger] s[k]).is_sync && pts_of(s[k]) <= target ==> {
                let at = sync_by(s, target, n);
                &&& k <= at < n
                &&& s[at].is_sync
                &&& pts_of(s[at]) <= target
            },
    decreases n,
{
    if n > 0 {
        law_seek_lands_on_sync(s, target, n - 1);
    }
}

} // verus!
