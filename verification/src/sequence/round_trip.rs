//! What the boxes of a movie say is what was written to them.
use crate::boxes::write::{box_bytes, full_body, law_box_round_trip, law_full_box_round_trip};
use crate::boxes::{box_payload, FourCc};
use crate::bytes::rows::{
    lemma_counted, lemma_half, lemma_long, lemma_row, lemma_row_word, lemma_row_words, lemma_word, rows,
};
use crate::bytes::{be16, be32, enc16, enc32, enc64, lemma_be16_enc16, lemma_be32_enc32, unsigned32};
use crate::error::ErrorKind;
use crate::file::FileModel;
use crate::sequence::table::{offsets_of, run_values, runs_of, stsc_of, stss_of, stsz_of, SizesModel};
use crate::sequence::track::{
    ccst_of, edit_at, elst_of, entry_of, handler_type_of, matrix_at, movie_of, times_of, tkhd_of,
    track_ids, TrackHeader,
};
use crate::sequence::{CodingConstraints, Edit, MovieModel};
use vstd::prelude::*;

verus! {

/// The fields of a movie or media header of version 0: creation and modification time,
/// timescale and duration, then the rest.
pub open spec fn header_fields(created: u32, modified: u32, timescale: u32, duration: u32, rest: Seq<u8>) -> Seq<
    u8,
> {
    enc32(created) + enc32(modified) + enc32(timescale) + enc32(duration) + rest
}

/// The fields of a movie or media header of version 1, with times and duration of
/// eight bytes.
pub open spec fn long_header_fields(
    created: u64,
    modified: u64,
    timescale: u32,
    duration: u64,
    rest: Seq<u8>,
) -> Seq<u8> {
    enc64(created) + enc64(modified) + enc32(timescale) + enc64(duration) + rest
}

/// A movie or media header gives back the timescale and the duration that were written.
pub proof fn law_header_times(flags: u32, created: u32, modified: u32, timescale: u32, duration: u32, rest: Seq<u8>)
    ensures
        times_of(
            full_body(0, flags, header_fields(created, modified, timescale, duration, rest)),
        ) == Ok::<(u32, u64), ErrorKind>((timescale, duration as u64)),
{
    let b = header_fields(created, modified, timescale, duration, rest);
    law_full_box_round_trip(0, flags, b);
    lemma_word(b, 8, timescale);
    lemma_word(b, 12, duration);
}

/// A header of version 1 gives back the timescale and the duration that were written.
pub proof fn law_long_header_times(
    flags: u32,
    created: u64,
    modified: u64,
    timescale: u32,
    duration: u64,
    rest: Seq<u8>,
)
    ensures
        times_of(
            full_body(1, flags, long_header_fields(created, modified, timescale, duration, rest)),
        ) == Ok::<(u32, u64), ErrorKind>((timescale, duration)),
{
    let b = long_header_fields(created, modified, timescale, duration, rest);
    law_full_box_round_trip(1, flags, b);
    lemma_word(b, 16, timescale);
    assert(b.subrange(20, 28) =~= enc64(duration));
    lemma_long(b, 20, duration);
}

/// A box at the head of a buffer is the first of its type.
proof fn lemma_leading_box(t: FourCc, body: Seq<u8>, rest: Seq<u8>)
    requires
        t != crate::tags::UUID,
        (box_bytes(t, body) + rest).len() <= usize::MAX,
    ensures
        box_payload(box_bytes(t, body) + rest, t) == Ok::<Option<Seq<u8>>, ErrorKind>(Some(body)),
{
    let b = box_bytes(t, body) + rest;
    law_box_round_trip(Seq::empty(), t, body, rest);
    assert(Seq::<u8>::empty() + box_bytes(t, body) + rest =~= b);
}

/// A movie has the timescale and the duration of the `mvhd` box at its head.
pub proof fn law_movie_header(
    f: FileModel,
    flags: u32,
    created: u32,
    modified: u32,
    timescale: u32,
    duration: u32,
    tail: Seq<u8>,
    rest: Seq<u8>,
    m: MovieModel,
)
    requires
        ({
            let body = full_body(
                0,
                flags,
                header_fields(created, modified, timescale, duration, tail),
            );
            let moov = box_bytes([0x6d, 0x76, 0x68, 0x64], body) + rest;
            &&& f.top_payload([0x6d, 0x6f, 0x6f, 0x76]) == Some(moov)
            &&& moov.len() <= usize::MAX
        }),
        movie_of(f) == Ok::<Option<MovieModel>, ErrorKind>(Some(m)),
    ensures
        m.timescale == timescale,
        m.duration == duration,
{
    let body = full_body(0, flags, header_fields(created, modified, timescale, duration, tail));
    assert(crate::tags::MVHD =~= [0x6du8, 0x76, 0x68, 0x64]);
    assert(crate::tags::MOOV =~= [0x6du8, 0x6f, 0x6f, 0x76]);
    assert(crate::tags::UUID[0] != crate::tags::MVHD[0]);
    lemma_leading_box(crate::tags::MVHD, body, rest);
    law_header_times(flags, created, modified, timescale, duration, tail);
}

/// The matrix of a track header.
pub open spec fn matrix_fields(m: [i32; 9]) -> Seq<u8> {
    enc32(unsigned32(m[0])) + enc32(unsigned32(m[1])) + enc32(unsigned32(m[2])) + enc32(
        unsigned32(m[3]),
    ) + enc32(unsigned32(m[4])) + enc32(unsigned32(m[5])) + enc32(unsigned32(m[6])) + enc32(
        unsigned32(m[7]),
    ) + enc32(unsigned32(m[8]))
}

#[verifier::rlimit(80)]
#[verifier::spinoff_prover]
proof fn lemma_matrix(b: Seq<u8>, p: int, m: [i32; 9])
    requires
        0 <= p,
        p + 36 <= b.len(),
        b.subrange(p, p + 36) == matrix_fields(m),
    ensures
        matrix_at(b, p) == m,
{
    let s = b.subrange(p, p + 36);
    assert forall|i: int| 0 <= i < 36 implies #[trigger] b[p + i] == s[i] by {}
    assert forall|k: int| 0 <= k < 9 implies be32(b, p + 4 * k) == unsigned32(
        #[trigger] m[k],
    ) by {
        let w = enc32(unsigned32(m[k]));
        assert(b[p + (4 * k)] == s[4 * k]);
        assert(b[p + (4 * k + 1)] == s[4 * k + 1]);
        assert(b[p + (4 * k + 2)] == s[4 * k + 2]);
        assert(b[p + (4 * k + 3)] == s[4 * k + 3]);
        assert(k == 0 || k == 1 || k == 2 || k == 3 || k == 4 || k == 5 || k == 6 || k == 7 || k
            == 8);
        lemma_word(b, p + 4 * k, unsigned32(m[k]));
    }
    assert(unsigned32(m[0]) == be32(b, p + 4 * 0) && unsigned32(m[1]) == be32(b, p + 4 * 1)
        && unsigned32(m[2]) == be32(b, p + 4 * 2));
    assert(unsigned32(m[3]) == be32(b, p + 4 * 3) && unsigned32(m[4]) == be32(b, p + 4 * 4)
        && unsigned32(m[5]) == be32(b, p + 4 * 5));
    assert(unsigned32(m[6]) == be32(b, p + 4 * 6) && unsigned32(m[7]) == be32(b, p + 4 * 7)
        && unsigned32(m[8]) == be32(b, p + 4 * 8));
    assert(matrix_at(b, p) =~= m);
}

/// The fields of a track header before its matrix: the times, the id, reserved bytes
/// and the duration, and sixteen bytes of layer, group and volume.
pub open spec fn track_front(times: (Seq<u8>, Seq<u8>), id: u32, layer: Seq<u8>) -> Seq<u8> {
    times.0 + enc32(id) + times.1 + layer
}

/// The fields of a track header behind its matrix: width and height, each with its
/// fraction.
pub open spec fn track_size(size: (u16, u16), fractions: (u16, u16), rest: Seq<u8>) -> Seq<u8> {
    enc16(size.0) + enc16(fractions.0) + enc16(size.1) + enc16(fractions.1) + rest
}

proof fn lemma_track_front(times: (Seq<u8>, Seq<u8>), id: u32, layer: Seq<u8>, rest: Seq<u8>)
    ensures
        be32(track_front(times, id, layer) + rest, times.0.len() as int) == id,
        track_front(times, id, layer).len() == times.0.len() + 4 + times.1.len() + layer.len(),
{
    let b = track_front(times, id, layer) + rest;
    lemma_be32_enc32(times.0, id, times.1 + layer + rest);
    assert(b =~= times.0 + enc32(id) + (times.1 + layer + rest));
}

proof fn lemma_track_size(before: Seq<u8>, size: (u16, u16), fractions: (u16, u16), rest: Seq<u8>)
    ensures
        ({
            let b = before + track_size(size, fractions, rest);
            let n = before.len() as int;
            &&& be16(b, n) == size.0
            &&& be16(b, n + 4) == size.1
            &&& b.len() >= n + 8
        }),
{
    let b = before + track_size(size, fractions, rest);
    lemma_be16_enc16(before, size.0, enc16(fractions.0) + enc16(size.1) + enc16(fractions.1) + rest);
    assert(b =~= before + enc16(size.0) + (enc16(fractions.0) + enc16(size.1) + enc16(fractions.1)
        + rest));
    let mid = before + enc16(size.0) + enc16(fractions.0);
    lemma_be16_enc16(mid, size.1, enc16(fractions.1) + rest);
    assert(b =~= mid + enc16(size.1) + (enc16(fractions.1) + rest));
}

/// A track header gives back the id, the flags, the matrix and the whole parts of the
/// size that were written. The times before the id and what is between the id and the layer
/// are longer in version 1.
#[verifier::rlimit(40)]
pub proof fn law_track_header(
    version: u8,
    flags: u32,
    times: (Seq<u8>, Seq<u8>),
    id: u32,
    layer: Seq<u8>,
    matrix: [i32; 9],
    size: (u16, u16),
    fractions: (u16, u16),
    rest: Seq<u8>,
)
    requires
        flags < 0x100_0000,
        version == 1 ==> times.0.len() == 16 && times.1.len() == 12,
        version != 1 ==> times.0.len() == 8 && times.1.len() == 8,
        layer.len() == 16,
    ensures
        tkhd_of(
            full_body(
                version,
                flags,
                track_front(times, id, layer) + matrix_fields(matrix) + track_size(
                    size,
                    fractions,
                    rest,
                ),
            ),
        ) == Ok::<TrackHeader, ErrorKind>(
            (TrackHeader {
                track_id: id,
                flags,
                width: size.0 as u32,
                height: size.1 as u32,
                matrix,
            }),
        ),
{
    let (a, m, z) = (
        track_front(times, id, layer),
        matrix_fields(matrix),
        track_size(size, fractions, rest),
    );
    let b = a + m + z;
    law_full_box_round_trip(version, flags, b);
    let at = a.len() as int;
    lemma_track_front(times, id, layer, m + z);
    assert(b =~= a + (m + z));
    lemma_track_size(a + m, size, fractions, rest);
    assert(m.len() == 36);
    assert(b.subrange(at, at + 36) =~= m);
    lemma_matrix(b, at, matrix);
}

/// A handler box names the handler that was written.
pub proof fn law_handler(version: u8, flags: u32, before: u32, handler: FourCc, rest: Seq<u8>)
    ensures
        handler_type_of(full_body(version, flags, enc32(before) + handler@ + rest)) == Ok::<
            FourCc,
            ErrorKind,
        >(handler),
{
    let b = enc32(before) + handler@ + rest;
    law_full_box_round_trip(version, flags, b);
    assert(crate::boxes::fourcc_at(b, 4) =~= handler);
}

/// Coding constraints are read as they were written: from the highest bit a flag, a
/// flag, and four bits.
pub proof fn law_coding_constraints(version: u8, flags: u32, c: CodingConstraints, rest: Seq<u8>)
    requires
        c.max_ref_per_pic < 16,
        rest.len() >= 3,
    ensures
        ({
            let first = (if c.all_ref_pics_intra {
                128int
            } else {
                0
            }) + (if c.intra_pred_used {
                64int
            } else {
                0
            }) + 4 * c.max_ref_per_pic;
            ccst_of(full_body(version, flags, seq![first as u8] + rest)) == Ok::<
                CodingConstraints,
                ErrorKind,
            >(c)
        }),
{
    let first = (if c.all_ref_pics_intra {
        128int
    } else {
        0
    }) + (if c.intra_pred_used {
        64int
    } else {
        0
    }) + 4 * c.max_ref_per_pic;
    let b = seq![first as u8] + rest;
    law_full_box_round_trip(version, flags, b);
    assert(b[0] == first);
}

/// A table of sizes gives back the sizes that were written.
pub proof fn law_sample_sizes(version: u8, flags: u32, sizes: Seq<u32>)
    requires
        sizes.len() <= crate::sequence::MAX_SAMPLES,
    ensures
        stsz_of(
            full_body(
                version,
                flags,
                enc32(0) + enc32(sizes.len() as u32) + rows(
                    sizes.len(),
                    4,
                    |i: int| enc32(sizes[i]),
                ),
            ),
        ) == Ok::<SizesModel, ErrorKind>(SizesModel::Table(sizes)),
{
    let n = sizes.len();
    let row = |i: int| enc32(sizes[i]);
    let head = enc32(0) + enc32(n as u32);
    let b = head + rows(n, 4, row);
    law_full_box_round_trip(version, flags, b);
    assert(be32(b, 0) == 0 && be32(b, 4) == n) by {
        assert forall|i: int| 0 <= i < 8 implies #[trigger] b[i] == head[i] by {}
        assert(b[0] == head[0] && b[1] == head[1] && b[2] == head[2] && b[3] == head[3]);
        assert(b[4] == head[4] && b[5] == head[5] && b[6] == head[6] && b[7] == head[7]);
        lemma_word(b, 0, 0);
        lemma_word(b, 4, n as u32);
    }
    assert(rows(n, 4, row).len() == 4 * n);
    let got = Seq::new(n, |i: int| be32(b, 8 + 4 * i));
    assert forall|i: int| 0 <= i < n implies #[trigger] got[i] == sizes[i] by {
        lemma_row_word(head, n, 4, row, i, 0, sizes[i]);
    }
    assert(got =~= sizes);
}

/// A size for all samples is given back with the number of samples.
pub proof fn law_one_size(version: u8, flags: u32, size: u32, count: u32, rest: Seq<u8>)
    requires
        size != 0,
        count <= crate::sequence::MAX_SAMPLES,
    ensures
        stsz_of(full_body(version, flags, enc32(size) + enc32(count) + rest)) == Ok::<
            SizesModel,
            ErrorKind,
        >(SizesModel::Fixed(size, count as int)),
{
    let b = enc32(size) + enc32(count) + rest;
    law_full_box_round_trip(version, flags, b);
    lemma_word(b, 0, size);
    lemma_word(b, 4, count);
}

/// A table of chunk offsets gives back the offsets that were written, in words or
/// double words.
pub proof fn law_chunk_offsets(version: u8, flags: u32, short: Seq<u32>, long: Seq<u64>)
    requires
        short.len() <= u32::MAX,
        long.len() <= u32::MAX,
    ensures
        offsets_of(
            full_body(
                version,
                flags,
                enc32(short.len() as u32) + rows(short.len(), 4, |i: int| enc32(short[i])),
            ),
            4,
        ) == Ok::<Seq<u64>, ErrorKind>(Seq::new(short.len(), |i: int| short[i] as u64)),
        offsets_of(
            full_body(
                version,
                flags,
                enc32(long.len() as u32) + rows(long.len(), 8, |i: int| enc64(long[i])),
            ),
            8,
        ) == Ok::<Seq<u64>, ErrorKind>(long),
{
    lemma_short_offsets(version, flags, short);
    lemma_long_offsets(version, flags, long);
}

proof fn lemma_short_offsets(version: u8, flags: u32, short: Seq<u32>)
    requires
        short.len() <= u32::MAX,
    ensures
        offsets_of(
            full_body(
                version,
                flags,
                enc32(short.len() as u32) + rows(short.len(), 4, |i: int| enc32(short[i])),
            ),
            4,
        ) == Ok::<Seq<u64>, ErrorKind>(Seq::new(short.len(), |i: int| short[i] as u64)),
{
    let n = short.len();
    let row = |i: int| enc32(short[i]);
    let head = enc32(n as u32);
    let b = head + rows(n, 4, row);
    law_full_box_round_trip(version, flags, b);
    lemma_counted(n, 4, row);
    assert((b.len() - 4) / 4 == n);
    let got = offsets_of(full_body(version, flags, b), 4)->Ok_0;
    assert forall|i: int| 0 <= i < n implies #[trigger] got[i] == short[i] as u64 by {
        lemma_row_word(head, n, 4, row, i, 0, short[i]);
    }
    assert(got =~= Seq::new(n, |i: int| short[i] as u64));
}

proof fn lemma_long_offsets(version: u8, flags: u32, long: Seq<u64>)
    requires
        long.len() <= u32::MAX,
    ensures
        offsets_of(
            full_body(
                version,
                flags,
                enc32(long.len() as u32) + rows(long.len(), 8, |i: int| enc64(long[i])),
            ),
            8,
        ) == Ok::<Seq<u64>, ErrorKind>(long),
{
    let m = long.len();
    let wide = |i: int| enc64(long[i]);
    let top = enc32(m as u32);
    let c = top + rows(m, 8, wide);
    law_full_box_round_trip(version, flags, c);
    lemma_counted(m, 8, wide);
    assert((c.len() - 4) / 8 == m);
    let read = offsets_of(full_body(version, flags, c), 8)->Ok_0;
    assert forall|i: int| 0 <= i < m implies #[trigger] read[i] == long[i] by {
        let p = 4 + 8 * i;
        let s = c.subrange(p, p + 8);
        assert forall|j: int| 0 <= j < 8 implies #[trigger] s[j] == enc64(long[i])[j] by {
            lemma_row(top, m, 8, wide, i, j);
        }
        assert(s =~= enc64(long[i]));
        lemma_long(c, p, long[i]);
    }
    assert(read =~= long);
}

/// The runs of a sample-to-chunk box are given back as they were written: first chunk,
/// samples per chunk, description.
#[verifier::rlimit(60)]
pub proof fn law_chunk_runs(version: u8, flags: u32, runs: Seq<(u32, u32, u32)>)
    requires
        runs.len() <= u32::MAX,
    ensures
        stsc_of(
            full_body(
                version,
                flags,
                enc32(runs.len() as u32) + rows(
                    runs.len(),
                    12,
                    |i: int| enc32(runs[i].0) + enc32(runs[i].1) + enc32(runs[i].2),
                ),
            ),
        ) == Ok::<Seq<(u32, u32, u32)>, ErrorKind>(runs),
{
    let n = runs.len();
    let row = |i: int| enc32(runs[i].0) + enc32(runs[i].1) + enc32(runs[i].2);
    let head = enc32(n as u32);
    let b = head + rows(n, 12, row);
    law_full_box_round_trip(version, flags, b);
    lemma_counted(n, 12, row);
    assert((b.len() - 4) / 12 == n);
    let got = stsc_of(full_body(version, flags, b))->Ok_0;
    assert forall|i: int| 0 <= i < n implies #[trigger] got[i] == runs[i] by {
        lemma_row_words(head, n, row, i, runs[i].0, runs[i].1, runs[i].2);
    }
    assert(got =~= runs);
}

/// The sync samples are given back as they were written.
pub proof fn law_sync_samples(version: u8, flags: u32, numbers: Seq<u32>)
    requires
        numbers.len() <= u32::MAX,
    ensures
        stss_of(
            full_body(
                version,
                flags,
                enc32(numbers.len() as u32) + rows(numbers.len(), 4, |i: int| enc32(numbers[i])),
            ),
        ) == Ok::<Seq<u32>, ErrorKind>(numbers),
{
    let n = numbers.len();
    let row = |i: int| enc32(numbers[i]);
    let head = enc32(n as u32);
    let b = head + rows(n, 4, row);
    law_full_box_round_trip(version, flags, b);
    lemma_counted(n, 4, row);
    assert((b.len() - 4) / 4 == n);
    let got = stss_of(full_body(version, flags, b))->Ok_0;
    assert forall|i: int| 0 <= i < n implies #[trigger] got[i] == numbers[i] by {
        lemma_row_word(head, n, 4, row, i, 0, numbers[i]);
    }
    assert(got =~= numbers);
}

/// The ids of a track reference are given back as they were written.
pub proof fn law_track_references(ids: Seq<u32>)
    ensures
        track_ids(rows(ids.len(), 4, |i: int| enc32(ids[i]))) == ids,
{
    let n = ids.len();
    let row = |i: int| enc32(ids[i]);
    let b = Seq::<u8>::empty() + rows(n, 4, row);
    assert(b =~= rows(n, 4, row));
    let got = track_ids(b);
    assert forall|i: int| 0 <= i < n implies got[i] == ids[i] by {
        lemma_row_word(Seq::empty(), n, 4, row, i, 0, ids[i]);
    }
    assert(got =~= ids);
}

/// The edits of a list of version 0 are given back as they were written: duration,
/// media time, rate.
#[verifier::rlimit(60)]
pub proof fn law_edits(version: u8, flags: u32, edits: Seq<(u32, i32, i32)>)
    requires
        version != 1,
        edits.len() <= u32::MAX,
    ensures
        elst_of(
            full_body(
                version,
                flags,
                enc32(edits.len() as u32) + rows(
                    edits.len(),
                    12,
                    |i: int|
                        enc32(edits[i].0) + enc32(unsigned32(edits[i].1)) + enc32(
                            unsigned32(edits[i].2),
                        ),
                ),
            ),
        ) == Ok::<Seq<Edit>, ErrorKind>(
            Seq::new(
                edits.len(),
                |i: int|
                    (Edit {
                        segment_duration: edits[i].0 as u64,
                        media_time: edits[i].1 as i64,
                        media_rate: edits[i].2,
                    }),
            ),
        ),
{
    let n = edits.len();
    let row = |i: int|
        enc32(edits[i].0) + enc32(unsigned32(edits[i].1)) + enc32(unsigned32(edits[i].2));
    let head = enc32(n as u32);
    let b = head + rows(n, 12, row);
    law_full_box_round_trip(version, flags, b);
    lemma_counted(n, 12, row);
    let got = elst_of(full_body(version, flags, b))->Ok_0;
    let want = Seq::new(
        n,
        |i: int|
            (Edit {
                segment_duration: edits[i].0 as u64,
                media_time: edits[i].1 as i64,
                media_rate: edits[i].2,
            }),
    );
    assert forall|i: int| 0 <= i < n implies #[trigger] got[i] == want[i] by {
        lemma_row_words(
            head,
            n,
            row,
            i,
            edits[i].0,
            unsigned32(edits[i].1),
            unsigned32(edits[i].2),
        );
        assert(i * 12 == 12 * i);
        assert(got[i] == edit_at(b, 4 + i * 12, version));
    }
    assert(got =~= want);
}

/// Every value as often as its run says, run after run.
pub open spec fn repeated(runs: Seq<(u32, i64)>) -> Seq<i64>
    decreases runs.len(),
{
    if runs.len() == 0 {
        Seq::empty()
    } else {
        repeated(runs.drop_last()) + Seq::new(runs.last().0 as nat, |i: int| runs.last().1)
    }
}

proof fn lemma_repeated_len(runs: Seq<(u32, i64)>, k: int)
    requires
        0 <= k <= runs.len(),
    ensures
        repeated(runs.take(k)).len() <= repeated(runs).len(),
    decreases runs.len(),
{
    if k < runs.len() {
        lemma_repeated_len(runs.drop_last(), k);
        assert(runs.drop_last().take(k) =~= runs.take(k));
    } else {
        assert(runs.take(k) =~= runs);
    }
}

/// Run `i` stands in its place.
spec fn run_stands(b: Seq<u8>, signed: bool, runs: Seq<(u32, i64)>, i: int) -> bool {
    &&& be32(b, 4 + 8 * i) == runs[i].0
    &&& be32(b, 8 + 8 * i) == coded(runs[i].1)
    &&& if signed {
        -0x8000_0000 <= runs[i].1 < 0x8000_0000
    } else {
        0 <= runs[i].1 < 0x1_0000_0000
    }
}

/// Reading runs from the `k`-th on.
proof fn lemma_runs_read(b: Seq<u8>, n: int, signed: bool, runs: Seq<(u32, i64)>, k: int)
    requires
        0 <= k <= n,
        n == runs.len(),
        repeated(runs).len() <= crate::sequence::MAX_SAMPLES,
        forall|i: int| 0 <= i < n ==> #[trigger] run_stands(b, signed, runs, i),
    ensures
        run_values(b, 4 + 8 * k, n - k, signed, repeated(runs.take(k))) == Ok::<
            Seq<i64>,
            ErrorKind,
        >(repeated(runs)),
    decreases n - k,
{
    if k < n {
        let next = runs.take(k + 1);
        lemma_repeated_len(runs, k + 1);
        assert(next.drop_last() =~= runs.take(k));
        assert(next.last() == runs[k]);
        let (count, x) = runs[k];
        assert(run_stands(b, signed, runs, k));
        assert(repeated(runs.take(k)) + Seq::new(count as nat, |i: int| x) =~= repeated(next));
        lemma_runs_read(b, n, signed, runs, k + 1);
    } else {
        assert(runs.take(k) =~= runs);
    }
}

/// The word that codes a value, in two's complement below zero.
pub open spec fn coded(v: i64) -> u32 {
    (if v >= 0 {
        v as int
    } else {
        v + 0x1_0000_0000
    }) as u32
}

/// The runs of a time-to-sample or composition box are given back as they were written, every
/// value as often as its run says; the values of a composition box of version 1 may
/// be negative.
pub proof fn law_time_runs(version: u8, flags: u32, composition: bool, runs: Seq<(u32, i64)>)
    requires
        runs.len() <= u32::MAX,
        repeated(runs).len() <= crate::sequence::MAX_SAMPLES,
        forall|i: int|
            0 <= i < runs.len() ==> if composition && version == 1 {
                -0x8000_0000 <= (#[trigger] runs[i]).1 < 0x8000_0000
            } else {
                0 <= runs[i].1 < 0x1_0000_0000
            },
    ensures
        runs_of(
            full_body(
                version,
                flags,
                enc32(runs.len() as u32) + rows(
                    runs.len(),
                    8,
                    |i: int| enc32(runs[i].0) + enc32(coded(runs[i].1)),
                ),
            ),
            composition,
        ) == Ok::<Seq<i64>, ErrorKind>(repeated(runs)),
{
    let n = runs.len();
    let row = |i: int| enc32(runs[i].0) + enc32(coded(runs[i].1));
    let head = enc32(n as u32);
    let b = head + rows(n, 8, row);
    law_full_box_round_trip(version, flags, b);
    lemma_counted(n, 8, row);
    assert((b.len() - 4) / 8 == n);
    let signed = composition && version == 1;
    assert forall|i: int| 0 <= i < n implies #[trigger] run_stands(b, signed, runs, i) by {
        lemma_row_word(head, n, 8, row, i, 0, runs[i].0);
        lemma_row_word(head, n, 8, row, i, 4, coded(runs[i].1));
    }
    assert(repeated(runs.take(0)) =~= Seq::empty());
    lemma_runs_read(b, n as int, signed, runs, 0);
}

/// A sample entry without children has the size and the data reference that were
/// written: six bytes, the index, sixteen bytes, width, height, fifty bytes.
pub proof fn law_sample_entry(
    t: FourCc,
    a: Seq<u8>,
    index: u16,
    b: Seq<u8>,
    width: u16,
    height: u16,
    c: Seq<u8>,
)
    requires
        a.len() == 6,
        b.len() == 16,
        c.len() == 50,
    ensures
        entry_of(t, a + enc16(index) + b + enc16(width) + enc16(height) + c) matches Ok(e) && {
            &&& e.entry_type == t
            &&& e.data_reference_index == index
            &&& e.width == width
            &&& e.height == height
            &&& e.children.len() == 0
            &&& e.hvcc is None && e.av1c is None && e.avcc is None && e.lhvc is None
        },
{
    let p = a + enc16(index) + b + enc16(width) + enc16(height) + c;
    lemma_half(p, 6, index);
    lemma_half(p, 24, width);
    lemma_half(p, 26, height);
}

} // verus!
