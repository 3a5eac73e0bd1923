//! Laws of tracks and of their samples.
use crate::boxes::write::{full_body, law_full_box_round_trip};
use crate::boxes::FourCc;
use crate::bytes::rows::{
    lemma_parts, lemma_row_word, lemma_stands, lemma_stands_long, lemma_stands_word, rows, stands,
};
use crate::bytes::{enc32, enc64};
use crate::error::ErrorKind;
use crate::sequence::groups::{prft_of, sbgp_of, with_pattern, with_sample, with_samples};
use crate::sequence::table::{Expansion, Tables};
use crate::sequence::{
    alpha_of, ids_of, orients, run_index, started, track_of, ProducerReferenceTime, SampleGroupModel,
    Sample, TrackModel, TrackOrientation,
};
use vstd::prelude::*;

verus! {

/// A point after `n` quarter turns anti-clockwise, with the vertical axis downwards.
pub open spec fn turned_point(x: int, y: int, n: nat) -> (int, int)
    decreases n,
{
    if n == 0 {
        (x, y)
    } else {
        let (u, v) = turned_point(x, y, (n - 1) as nat);
        (v, -u)
    }
}

/// The matrix of a track that has an orientation maps every point to where the orientation
/// takes it: mirrored from left to right first, if so, then turned anti-clockwise by
/// quarter turns; in 16.16 fixed point.
pub proof fn law_orientation_of_matrix(m: [i32; 9], o: TrackOrientation, x: int, y: int)
    requires
        orients(m, o),
    ensures
        o.rotation < 4,
        ({
            let (u, v) = turned_point(
                if o.mirror {
                    -x
                } else {
                    x
                },
                y,
                o.rotation as nat,
            );
            &&& m[0] * x + m[3] * y == 0x1_0000 * u
            &&& m[1] * x + m[4] * y == 0x1_0000 * v
        }),
{
    reveal_with_fuel(turned_point, 4);
    let (a, b, c, d) = (m[0] as int, m[1] as int, m[3] as int, m[4] as int);
    assert(a == 0 || a == 0x1_0000 || a == -0x1_0000);
    assert(b == 0 || b == 0x1_0000 || b == -0x1_0000);
    assert(c == 0 || c == 0x1_0000 || c == -0x1_0000);
    assert(d == 0 || d == 0x1_0000 || d == -0x1_0000);
    lemma_unit_product(a, x);
    lemma_unit_product(b, x);
    lemma_unit_product(c, y);
    lemma_unit_product(d, y);
}

proof fn lemma_unit_product(a: int, x: int)
    requires
        a == 0 || a == 0x1_0000 || a == -0x1_0000,
    ensures
        a == 0 ==> a * x == 0,
        a == 0x1_0000 ==> a * x == 0x1_0000 * x,
        a == -0x1_0000 ==> a * x == -(0x1_0000 * x),
{
    if a == 0 {
        assert(a * x == 0) by (nonlinear_arith)
            requires
                a == 0,
        ;
    } else if a == 0x1_0000 {
        assert(a * x == 0x1_0000 * x) by (nonlinear_arith)
            requires
                a == 0x1_0000,
        ;
    } else {
        assert(a * x == -(0x1_0000 * x)) by (nonlinear_arith)
            requires
                a == -0x1_0000,
        ;
    }
}

/// The samples that have started at a time of another track are the first ones: each of
/// them starts at or before it, in seconds, and the next one after it. (A timescale of 0 is
/// taken as 1.)
pub proof fn law_started(s: Seq<Sample>, here: u32, dts: u64, there: u32)
    ensures
        ({
            let n = started(s, here, dts, there);
            let (a, b) = (
                if here == 0 {
                    1int
                } else {
                    here as int
                },
                if there == 0 {
                    1int
                } else {
                    there as int
                },
            );
            &&& 0 <= n <= s.len()
            &&& forall|i: int| 0 <= i < n ==> (#[trigger] s[i]).dts * b <= dts * a
            &&& n < s.len() ==> s[n].dts * b > dts * a
        }),
    decreases s.len(),
{
    if s.len() > 0 {
        let rest = s.drop_first();
        law_started(rest, here, dts, there);
        let n = started(s, here, dts, there);
        let (a, b) = (
            if here == 0 {
                1int
            } else {
                here as int
            },
            if there == 0 {
                1int
            } else {
                there as int
            },
        );
        assert forall|i: int| 0 <= i < n implies (#[trigger] s[i]).dts * b <= dts * a by {
            if i > 0 {
                assert(rest[i - 1] == s[i]);
            }
        }
        if n > 0 && n < s.len() {
            assert(rest[n - 1] == s[n]);
        }
    }
}

/// The number of samples that runs cover.
pub open spec fn covered(runs: Seq<(u32, u32)>) -> int
    decreases runs.len(),
{
    if runs.len() == 0 {
        0
    } else {
        covered(runs.drop_last()) + runs.last().0
    }
}

proof fn lemma_covered_first(runs: Seq<(u32, u32)>)
    requires
        runs.len() > 0,
    ensures
        covered(runs) == runs[0].0 + covered(runs.drop_first()),
        0 <= covered(runs.drop_first()),
    decreases runs.len(),
{
    if runs.len() > 1 {
        lemma_covered_first(runs.drop_last());
        let rest = runs.drop_first();
        assert(rest.drop_last() =~= runs.drop_last().drop_first());
        assert(rest.last() == runs.last());
    } else {
        assert(runs.drop_last() =~= Seq::empty());
        assert(runs.drop_first() =~= Seq::empty());
    }
}

proof fn lemma_run_index(runs: Seq<(u32, u32)>, at: int, index: int, k: int)
    requires
        0 <= k < runs.len(),
        at + covered(runs.take(k)) <= index < at + covered(runs.take(k + 1)),
    ensures
        run_index(runs, at, index) == Some(runs[k].1),
    decreases runs.len(),
{
    let rest = runs.drop_first();
    assert(runs.take(k + 1).drop_last() =~= runs.take(k));
    if k == 0 {
        assert(runs.take(0) =~= Seq::empty());
        assert(runs.take(1).last() == runs[0]);
    } else {
        lemma_covered_first(runs.take(k));
        lemma_covered_first(runs.take(k + 1));
        assert(runs.take(k).drop_first() =~= rest.take(k - 1));
        assert(runs.take(k + 1).drop_first() =~= rest.take(k));
        assert(runs.take(k)[0] == runs[0] && runs.take(k + 1)[0] == runs[0]);
        lemma_run_index(rest, at + runs[0].0, index, k - 1);
    }
}

/// A sample has the index of the run that covers it: of the `k`-th run, when the runs
/// before it cover at most its number and those up to it cover more.
pub proof fn law_run_of_sample(runs: Seq<(u32, u32)>, index: int, k: int)
    requires
        0 <= k < runs.len(),
        covered(runs.take(k)) <= index < covered(runs.take(k + 1)),
    ensures
        run_index(runs, 0, index) == Some(runs[k].1),
{
    lemma_run_index(runs, 0, index, k);
}

/// A sample behind all runs has no index.
pub proof fn law_no_run(runs: Seq<(u32, u32)>, at: int, index: int)
    requires
        index >= at + covered(runs),
    ensures
        run_index(runs, at, index) is None,
    decreases runs.len(),
{
    if runs.len() > 0 {
        lemma_covered_first(runs);
        law_no_run(runs.drop_first(), at + runs[0].0, index);
    }
}

/// A track is found by its id, the first that has it.
pub proof fn law_track_by_id(tracks: Seq<TrackModel>, id: u32)
    ensures
        track_of(tracks, id) matches Some(t) ==> t.track_id == id && tracks.contains(t),
        track_of(tracks, id) is None <==> forall|i: int|
            0 <= i < tracks.len() ==> (#[trigger] tracks[i]).track_id != id,
    decreases tracks.len(),
{
    if tracks.len() > 0 {
        let rest = tracks.drop_first();
        law_track_by_id(rest, id);
        assert forall|k: int| 0 <= k < rest.len() implies #[trigger] rest[k] == tracks[k + 1] by {}
        assert(tracks.contains(tracks[0]));
        if tracks[0].track_id != id {
            if let Some(t) = track_of(rest, id) {
                let i = choose|i: int| 0 <= i < rest.len() && rest[i] == t;
                assert(tracks[i + 1] == t);
            } else {
                assert forall|i: int| 0 <= i < tracks.len() implies (#[trigger] tracks[i]).track_id != id by {
                    if i > 0 {
                        assert(rest[i - 1] == tracks[i]);
                    }
                }
            }
        }
    }
}

/// The targets of the references of a type are exactly those that a reference of the type
/// names.
pub proof fn law_track_targets(refs: Seq<(FourCc, Seq<u32>)>, t: FourCc, id: u32)
    ensures
        ids_of(refs, t).contains(id) <==> exists|i: int|
            0 <= i < refs.len() && (#[trigger] refs[i]).0 == t && refs[i].1.contains(id),
    decreases refs.len(),
{
    if refs.len() > 0 {
        let front = refs.drop_last();
        law_track_targets(front, t, id);
        let r = refs.last();
        assert(refs[refs.len() - 1] == r);
        let (x, y) = (ids_of(front, t), r.1);
        if exists|i: int| 0 <= i < refs.len() && (#[trigger] refs[i]).0 == t && refs[i].1.contains(id) {
            let i = choose|i: int|
                0 <= i < refs.len() && (#[trigger] refs[i]).0 == t && refs[i].1.contains(id);
            if i < front.len() {
                assert(front[i] == refs[i]);
            }
        }
        if exists|i: int| 0 <= i < front.len() && (#[trigger] front[i]).0 == t && front[i].1.contains(id) {
            let i = choose|i: int|
                0 <= i < front.len() && (#[trigger] front[i]).0 == t && front[i].1.contains(id);
            assert(refs[i] == front[i]);
        }
        if r.0 == t {
            if x.contains(id) {
                let k = choose|k: int| 0 <= k < x.len() && x[k] == id;
                assert((x + y)[k] == id);
            }
            if y.contains(id) {
                let k = choose|k: int| 0 <= k < y.len() && y[k] == id;
                assert((x + y)[x.len() + k] == id);
            }
        }
    }
}

/// The alpha track of a track is another one that refers to it as an auxiliary (`auxl`) and
/// is of the alpha kind; it is found whenever there is one.
pub proof fn law_alpha_track(tracks: Seq<TrackModel>, id: u32)
    ensures
        alpha_of(tracks, id) matches Some(t) ==> {
            &&& tracks.contains(t)
            &&& t.track_id != id
            &&& ids_of(t.references, [0x61, 0x75, 0x78, 0x6c]).contains(id)
            &&& t.auxiliary() == Some(crate::props::AuxKind::Alpha)
        },
        alpha_of(tracks, id) is None ==> forall|i: int|
            0 <= i < tracks.len() && (#[trigger] tracks[i]).track_id != id && ids_of(
                tracks[i].references,
                [0x61, 0x75, 0x78, 0x6c],
            ).contains(id) ==> tracks[i].auxiliary() != Some(crate::props::AuxKind::Alpha),
    decreases tracks.len(),
{
    assert(crate::tags::AUXL =~= [0x61u8, 0x75, 0x78, 0x6c]);
    if tracks.len() > 0 {
        let rest = tracks.drop_first();
        law_alpha_track(rest, id);
        assert forall|k: int| 0 <= k < rest.len() implies #[trigger] rest[k] == tracks[k + 1] by {}
        assert(tracks.contains(tracks[0]));
        if let Some(t) = alpha_of(rest, id) {
            let i = choose|i: int| 0 <= i < rest.len() && rest[i] == t;
            assert(tracks[i + 1] == t);
        }
        if alpha_of(tracks, id) is None {
            assert forall|i: int|
                0 <= i < tracks.len() && (#[trigger] tracks[i]).track_id != id && ids_of(
                    tracks[i].references,
                    [0x61, 0x75, 0x78, 0x6c],
                ).contains(id) implies tracks[i].auxiliary() != Some(crate::props::AuxKind::Alpha) by {
                if i > 0 {
                    assert(rest[i - 1] == tracks[i]);
                }
            }
        }
    }
}

/// A producer reference time gives back what was written: track, NTP time and media time, the
/// last of four bytes in version 0 and of eight in others.
pub proof fn law_reference_time(version: u8, flags: u32, track: u32, ntp: u64, media: u64, rest: Seq<u8>)
    requires
        flags < 0x100_0000,
        version == 0 ==> media <= u32::MAX,
    ensures
        ({
            let time = if version == 0 {
                enc32(media as u32)
            } else {
                enc64(media)
            };
            prft_of(full_body(version, flags, enc32(track) + enc64(ntp) + time + rest)) == Ok::<
                ProducerReferenceTime,
                ErrorKind,
            >(
                (ProducerReferenceTime {
                    flags,
                    reference_track_id: track,
                    ntp_timestamp: ntp,
                    media_time: media,
                }),
            )
        }),
{
    let time = if version == 0 {
        enc32(media as u32)
    } else {
        enc64(media)
    };
    let s = enc32(track) + enc64(ntp) + time;
    let b = s + rest;
    law_full_box_round_trip(version, flags, b);
    lemma_stands(Seq::empty(), s, rest);
    assert(Seq::<u8>::empty() + s + rest =~= b);
    lemma_parts(b, 0, enc32(track) + enc64(ntp), time);
    lemma_parts(b, 0, enc32(track), enc64(ntp));
    lemma_stands_word(b, 0, track);
    lemma_stands_long(b, 4, ntp);
    if version == 0 {
        lemma_stands_word(b, 12, media as u32);
    } else {
        lemma_stands_long(b, 12, media);
    }
}

/// Sample `i` of a table is described by its boxes: its size; its duration and its
/// composition offset, 0 where there is none; and whether it is a sync sample, by its number
/// from 1, every sample being one without a list.
pub open spec fn described_sample(t: Tables, s: Sample, i: int) -> bool {
    &&& s.size == t.sizes.size(i)
    &&& s.duration == (if i < t.durations.len() {
        t.durations[i] as u32
    } else {
        0
    })
    &&& s.cts_offset == (if i < t.compositions.len() {
        t.compositions[i]
    } else {
        0
    })
    &&& s.is_sync == (t.sync matches Some(v) ==> v.contains((i + 1) as u32))
}

/// Samples lie in the chunks `homes`: in rising order of the chunks; the first sample of a
/// chunk at its offset, the others each behind the one before; and the description
/// is that of the run of the chunk, the last run that starts at or before it.
pub open spec fn housed(t: Tables, v: Seq<Sample>, homes: Seq<int>) -> bool {
    &&& homes.len() == v.len()
    &&& forall|i: int| 0 <= i < v.len() ==> #[trigger] housed_at(t, v, homes, i)
}

/// Sample `i` lies in its chunk.
pub open spec fn housed_at(t: Tables, v: Seq<Sample>, homes: Seq<int>, i: int) -> bool {
    &&& described_sample(t, v[i], i)
    &&& 1 <= homes[i] <= t.chunks.len()
    &&& i > 0 ==> homes[i - 1] <= homes[i]
    &&& i == 0 || homes[i - 1] < homes[i] ==> v[i].offset == t.chunks[homes[i] - 1]
    &&& i > 0 && homes[i - 1] == homes[i] ==> v[i].offset == v[i - 1].offset + v[i - 1].size
    &&& exists|r: int| #[trigger] in_run(t, r, homes[i]) && v[i].description_index == t.runs[r].2
}

/// Chunk `c` is of run `r`.
pub open spec fn in_run(t: Tables, r: int, c: int) -> bool {
    &&& 0 <= r < t.runs.len()
    &&& t.runs[r].0 <= c
    &&& r + 1 < t.runs.len() ==> c < t.runs[r + 1].0
}

/// A chunk's samples follow those before.
proof fn lemma_chunk(
    t: Tables,
    st: Expansion,
    homes: Seq<int>,
    c: int,
    offset: u64,
    n: int,
    r: int,
) -> (more: Seq<int>)
    requires
        housed(t, st.samples, homes),
        in_run(t, r, c),
        1 <= c <= t.chunks.len(),
        homes.len() > 0 ==> homes.last() <= c,
        homes.len() == 0 || homes.last() < c ==> offset == t.chunks[c - 1],
        homes.len() > 0 && homes.last() == c ==> offset == st.samples.last().offset
            + st.samples.last().size,
    ensures
        t.chunk(st, offset, n, t.runs[r].2) matches Ok(x) ==> housed(t, x.samples, more)
            && (more.len() > 0 ==> more.last() <= c),
    decreases n,
{
    let i = st.samples.len() as int;
    if n > 0 && i < t.sizes.count() && offset + t.sizes.size(i) <= t.file_len {
        let s = t.sample(i, offset, st.dts, t.runs[r].2);
        let next = Expansion {
            samples: st.samples.push(s),
            dts: if st.dts + s.duration > u64::MAX {
                u64::MAX
            } else {
                (st.dts + s.duration) as u64
            },
        };
        let wide = homes.push(c);
        assert forall|k: int| 0 <= k < next.samples.len() implies #[trigger] housed_at(
            t,
            next.samples,
            wide,
            k,
        ) by {
            if k < i {
                assert(housed_at(t, st.samples, homes, k));
            } else {
                if i > 0 {
                    assert(homes[i - 1] == homes.last());
                    assert(st.samples[i - 1] == st.samples.last());
                }
                assert(in_run(t, r, wide[k]));
            }
        }
        lemma_chunk(t, next, wide, c, (offset + t.sizes.size(i)) as u64, n - 1, r)
    } else {
        homes
    }
}

proof fn lemma_run(t: Tables, st: Expansion, homes: Seq<int>, chunk: int, last: int, r: int) -> (more: Seq<int>)
    requires
        housed(t, st.samples, homes),
        0 <= r < t.runs.len(),
        1 <= t.runs[r].0 <= chunk,
        last <= t.chunks.len(),
        r + 1 < t.runs.len() ==> last < t.runs[r + 1].0,
        homes.len() > 0 ==> homes.last() < chunk,
    ensures
        t.run(st, chunk, last, t.runs[r].1, t.runs[r].2) matches Ok(x) ==> housed(t, x.samples, more)
            && (more.len() > 0 ==> more.last() <= last || more.last() < chunk),
    decreases last - chunk + 1,
{
    if chunk <= last && chunk <= t.chunks.len() {
        let (per, d) = (t.runs[r].1, t.runs[r].2);
        let wide = lemma_chunk(t, st, homes, chunk, t.chunks[chunk - 1], per as int, r);
        if let Ok(next) = t.chunk(st, t.chunks[chunk - 1], per as int, d) {
            lemma_run(t, next, wide, chunk + 1, last, r)
        } else {
            wide
        }
    } else {
        homes
    }
}

proof fn lemma_expand(t: Tables, st: Expansion, homes: Seq<int>, i: int) -> (more: Seq<int>)
    requires
        housed(t, st.samples, homes),
        0 <= i,
        homes.len() > 0 && i < t.runs.len() ==> homes.last() < t.runs[i].0,
    ensures
        t.expand(st, i) matches Ok(x) ==> housed(t, x.samples, more),
    decreases t.runs.len() - i,
{
    if i < t.runs.len() && t.expand(st, i) is Ok {
        let (first, per, d) = t.runs[i];
        let last = if i + 1 < t.runs.len() {
            t.runs[i + 1].0 - 1
        } else {
            t.chunks.len() as int
        };
        if last <= t.chunks.len() {
            let wide = lemma_run(t, st, homes, first as int, last, i);
            if let Ok(next) = t.run(st, first as int, last, per, d) {
                lemma_expand(t, next, wide, i + 1)
            } else {
                wide
            }
        } else {
            lemma_short(t, st, first as int, last, per, d);
            homes
        }
    } else {
        homes
    }
}

/// A run over more chunks than there are is refused.
proof fn lemma_short(t: Tables, st: Expansion, chunk: int, last: int, per: u32, d: u32)
    requires
        chunk <= last,
        last > t.chunks.len(),
    ensures
        t.run(st, chunk, last, per, d) is Err,
    decreases last - chunk + 1,
{
    if chunk <= t.chunks.len() {
        if let Ok(next) = t.chunk(st, t.chunks[chunk - 1], per as int, d) {
            if chunk < last {
                lemma_short(t, next, chunk + 1, last, per, d);
            }
        }
    }
}

/// The samples of a table lie in its chunks, in order, each behind the one before or at the
/// offset of its chunk, and are described by the boxes of the table.
pub proof fn law_samples_in_chunks(t: Tables, v: Seq<Sample>) -> (homes: Seq<int>)
    requires
        t.samples() == Ok::<Seq<Sample>, ErrorKind>(v),
    ensures
        housed(t, v, homes),
        v.len() == t.sizes.count(),
{
    lemma_expand(t, Expansion { samples: Seq::empty(), dts: 0 }, Seq::empty(), 0)
}

/// A sample group box gives back its type, its parameter (in version 1 only) and its runs as
/// they were written: sample count and description index.
#[verifier::rlimit(60)]
pub proof fn law_sample_group(version: u8, flags: u32, t: FourCc, parameter: u32, runs: Seq<(u32, u32)>)
    requires
        runs.len() <= crate::sequence::MAX_GROUP_ENTRIES,
        runs.len() <= u32::MAX,
    ensures
        ({
            let front = if version == 1 {
                t@ + enc32(parameter)
            } else {
                t@
            };
            sbgp_of(
                full_body(
                    version,
                    flags,
                    front + enc32(runs.len() as u32) + rows(
                        runs.len(),
                        8,
                        |i: int| enc32(runs[i].0) + enc32(runs[i].1),
                    ),
                ),
            ) == Ok::<SampleGroupModel, ErrorKind>(
                (SampleGroupModel {
                    grouping_type: t,
                    grouping_type_parameter: if version == 1 {
                        Some(parameter)
                    } else {
                        None
                    },
                    entries: runs,
                    compact: false,
                }),
            )
        }),
{
    let n = runs.len();
    let front = if version == 1 {
        t@ + enc32(parameter)
    } else {
        t@
    };
    let row = |i: int| enc32(runs[i].0) + enc32(runs[i].1);
    let head = front + enc32(n as u32);
    let b = head + rows(n, 8, row);
    law_full_box_round_trip(version, flags, b);
    assert(crate::boxes::fourcc_at(b, 0) =~= t) by {
        assert forall|i: int| 0 <= i < 4 implies #[trigger] b[i] == t@[i] by {
            assert(b[i] == head[i]);
        }
        assert(b[0] == t@[0] && b[1] == t@[1] && b[2] == t@[2] && b[3] == t@[3]);
    }
    let at = front.len() as int;
    assert(stands(b, at, enc32(n as u32))) by {
        lemma_stands(front, enc32(n as u32), rows(n, 8, row));
    }
    lemma_stands_word(b, at, n as u32);
    if version == 1 {
        lemma_stands(t@, enc32(parameter), enc32(n as u32) + rows(n, 8, row));
        assert(t@ + enc32(parameter) + (enc32(n as u32) + rows(n, 8, row)) =~= b);
        lemma_stands_word(b, 4, parameter);
    }
    assert(rows(n, 8, row).len() == 8 * n);
    assert((b.len() - at - 4) / 8 == n);
    let got = crate::sequence::groups::runs_at(b, at + 4, n as int);
    assert forall|i: int| 0 <= i < n implies #[trigger] got[i] == runs[i] by {
        lemma_row_word(head, n, 8, row, i, 0, runs[i].0);
        lemma_row_word(head, n, 8, row, i, 4, runs[i].1);
    }
    assert(got =~= runs);
}

/// Runs with one more run at the end.
proof fn lemma_run_push(runs: Seq<(u32, u32)>, c: u32, x: u32, at: int, index: int)
    requires
        at <= index,
    ensures
        covered(runs.push((c, x))) == covered(runs) + c,
        0 <= covered(runs),
        run_index(runs.push((c, x)), at, index) == (if index < at + covered(runs) {
            run_index(runs, at, index)
        } else if index < at + covered(runs) + c {
            Some(x)
        } else {
            None
        }),
    decreases runs.len(),
{
    reveal_with_fuel(run_index, 3);
    let more = runs.push((c, x));
    assert(more.drop_last() =~= runs);
    if runs.len() == 0 {
        assert(more.drop_first() =~= Seq::empty());
    } else {
        let rest = runs.drop_first();
        assert(more.drop_first() =~= rest.push((c, x)));
        lemma_covered_first(runs);
        assert(more[0] == runs[0]);
        if index >= at + runs[0].0 {
            lemma_run_push(rest, c, x, at + runs[0].0, index);
        } else {
            lemma_run_push(rest, c, x, at + runs[0].0, at + runs[0].0);
        }
    }
}

/// Runs with one more sample: the samples before keep their index, the new one has its own.
proof fn lemma_with_sample(runs: Seq<(u32, u32)>, x: u32, index: int)
    requires
        0 <= index <= covered(runs),
    ensures
        covered(with_sample(runs, x)) == covered(runs) + 1,
        0 <= covered(runs),
        run_index(with_sample(runs, x), 0, index) == (if index < covered(runs) {
            run_index(runs, 0, index)
        } else {
            Some(x)
        }),
{
    if runs.len() > 0 && runs.last().1 == x && runs.last().0 < u32::MAX {
        let front = runs.drop_last();
        let c = runs.last().0;
        assert(runs =~= front.push((c, x)));
        lemma_run_push(front, c, x, 0, index);
        lemma_run_push(front, (c + 1) as u32, x, 0, index);
    } else {
        lemma_run_push(runs, 1, x, 0, index);
    }
}

proof fn lemma_with_samples(runs: Seq<(u32, u32)>, idx: Seq<u32>, index: int)
    requires
        0 <= index < covered(runs) + idx.len(),
        0 <= covered(runs),
    ensures
        covered(with_samples(runs, idx)) == covered(runs) + idx.len(),
        run_index(with_samples(runs, idx), 0, index) == (if index < covered(runs) {
            run_index(runs, 0, index)
        } else {
            Some(idx[index - covered(runs)])
        }),
    decreases idx.len(),
{
    if idx.len() > 0 {
        let front = idx.drop_last();
        let n = covered(runs) + front.len();
        if index < n {
            lemma_with_samples(runs, front, index);
        } else if n > 0 {
            lemma_with_samples(runs, front, 0);
        } else {
            assert(front =~= Seq::empty());
        }
        lemma_with_sample(with_samples(runs, front), idx.last(), index);
    }
}

/// A pattern of indices that covers a number of samples gives them the indices of the
/// pattern in turn, from its start again and again; the samples before keep theirs.
pub proof fn law_pattern_repeats(
    runs: Seq<(u32, u32)>,
    idx: Seq<u32>,
    left: int,
    out: Seq<(u32, u32)>,
    index: int,
)
    requires
        with_pattern(runs, idx, left) == Ok::<Seq<(u32, u32)>, ErrorKind>(out),
        idx.len() > 0,
        0 <= left,
        0 <= covered(runs),
        0 <= index < covered(runs) + left,
    ensures
        covered(out) == covered(runs) + left,
        run_index(out, 0, index) == (if index < covered(runs) {
            run_index(runs, 0, index)
        } else {
            Some(idx[(index - covered(runs)) % (idx.len() as int)])
        }),
    decreases left,
{
    if left > 0 {
        let w = idx.len() as int;
        let n = if left < w {
            left
        } else {
            w
        };
        let part = idx.take(n);
        let next = with_samples(runs, part);
        let from = covered(runs);
        if index < from + n {
            lemma_with_samples(runs, part, index);
            if index >= from {
                vstd::arithmetic::div_mod::lemma_small_mod((index - from) as nat, w as nat);
            }
        } else {
            lemma_with_samples(runs, part, from);
        }
        if left - n > 0 {
            law_pattern_repeats(next, idx, left - n, out, index);
            if index >= from + n {
                vstd::arithmetic::div_mod::lemma_mod_add_multiples_vanish(index - from - w, w);
            }
        }
    }
}

} // verus!
