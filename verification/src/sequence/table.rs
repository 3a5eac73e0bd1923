//! The sample table of a track (`stbl`, ISO/IEC 14496-12 §8.5–§8.7): sizes,
//! chunk offsets, sample-to-chunk runs, times and sync samples, expanded to a
//! flat list of samples.
use crate::boxes::{fourcc_eq, full_box, header_at, parse_box_header, parse_full_box, payload, payload_of, BoxHeader, FourCc, Reader};
use crate::bytes::{be16, be32, be64, signed32};
use crate::error::{view_outcome, ErrorKind, HeifError, Outcome, Result};
use crate::sequence::{Sample, MAX_SAMPLES};
use crate::tags;
use crate::text::{concat, decimal};
use vstd::prelude::*;

verus! {

/// The payload of the last box of a type from `pos` on, `last` when there is
/// none.
pub open spec fn last_box(buf: Seq<u8>, pos: int, t: FourCc, last: Option<Seq<u8>>) -> Outcome<
    Option<Seq<u8>>,
>
    decreases buf.len() - pos,
{
    if pos >= buf.len() {
        Ok(last)
    } else {
        match header_at(buf, pos) {
            None => Err(ErrorKind::Invalid),
            Some(h) => if !(pos < h.end_at() <= buf.len()) {
                Err(ErrorKind::Invalid)
            } else {
                last_box(
                    buf,
                    h.end_at(),
                    t,
                    if h.box_type == t {
                        Some(payload_of(buf, h))
                    } else {
                        last
                    },
                )
            },
        }
    }
}

/// A view of an optional byte string.
pub open spec fn option_slice(o: Option<&[u8]>) -> Option<Seq<u8>> {
    match o {
        Some(b) => Some(b@),
        None => None,
    }
}

fn find_last<'a>(buf: &'a [u8], t: &FourCc) -> (res: Result<Option<&'a [u8]>>)
    ensures
        match res {
            Ok(o) => last_box(buf@, 0, *t, None) == Ok::<Option<Seq<u8>>, ErrorKind>(
                option_slice(o),
            ),
            Err(e) => last_box(buf@, 0, *t, None) == Err::<Option<Seq<u8>>, ErrorKind>(e.kind()),
        },
{
    let mut last: Option<&'a [u8]> = None;
    let mut cursor: usize = 0;
    while cursor < buf.len()
        invariant
            last_box(buf@, 0, *t, None) == last_box(buf@, cursor as int, *t, option_slice(last)),
        decreases buf@.len() - cursor,
    {
        let h: BoxHeader = parse_box_header(buf, cursor)?;
        proof {
            crate::boxes::lemma_header_inside(buf@, cursor as int);
        }
        if fourcc_eq(&h.box_type, t) {
            last = Some(payload(buf, &h));
        }
        cursor = h.end();
    }
    Ok(last)
}

/// The sizes of the samples: one for all, or one each.
pub enum SizesModel {
    /// One size and how often.
    Fixed(u32, int),
    /// A size each.
    Table(Seq<u32>),
}

impl SizesModel {
    /// The number of samples.
    pub open spec fn count(self) -> int {
        match self {
            SizesModel::Fixed(_, n) => n,
            SizesModel::Table(v) => v.len() as int,
        }
    }

    /// The size of sample `i`.
    pub open spec fn size(self, i: int) -> u32 {
        match self {
            SizesModel::Fixed(s, _) => s,
            SizesModel::Table(v) => v[i],
        }
    }
}

enum SampleSizes {
    Fixed(u32, usize),
    Table(Vec<u32>),
}

impl View for SampleSizes {
    type V = SizesModel;

    closed spec fn view(&self) -> SizesModel {
        match self {
            SampleSizes::Fixed(s, n) => SizesModel::Fixed(*s, *n as int),
            SampleSizes::Table(v) => SizesModel::Table(v@),
        }
    }
}

impl SampleSizes {
    fn count(&self) -> (r: usize)
        ensures
            r == self@.count(),
    {
        match self {
            SampleSizes::Fixed(_, n) => *n,
            SampleSizes::Table(v) => v.len(),
        }
    }

    fn get(&self, i: usize) -> (r: u32)
        requires
            i < self@.count(),
        ensures
            r == self@.size(i as int),
    {
        match self {
            SampleSizes::Fixed(s, _) => *s,
            SampleSizes::Table(v) => v[i],
        }
    }
}

/// The sizes an `stsz` payload holds.
pub open spec fn stsz_of(p: Seq<u8>) -> Outcome<SizesModel> {
    match full_box(p) {
        None => Err(ErrorKind::Invalid),
        Some((_, _, b)) => if b.len() < 8 {
            Err(ErrorKind::Invalid)
        } else {
            let n = be32(b, 4) as int;
            if n > MAX_SAMPLES {
                Err(ErrorKind::Exhausted)
            } else if be32(b, 0) != 0 {
                Ok(SizesModel::Fixed(be32(b, 0), n))
            } else if 8 + 4 * n > b.len() {
                Err(ErrorKind::Invalid)
            } else {
                Ok(SizesModel::Table(Seq::new(n as nat, |i: int| be32(b, 8 + 4 * i))))
            }
        },
    }
}

/// Size `i` of an `stz2` table with fields of `field` bits.
pub open spec fn small_size(b: Seq<u8>, field: u8, i: int) -> u32 {
    if field == 4 {
        (if i % 2 == 0 {
            b[8 + i / 2] / 16
        } else {
            b[8 + i / 2] % 16
        }) as u32
    } else if field == 8 {
        b[8 + i] as u32
    } else {
        be16(b, 8 + 2 * i) as u32
    }
}

/// The bytes of an `stz2` table of `n` fields of `field` bits.
pub open spec fn small_table_len(field: u8, n: int) -> int {
    if field == 4 {
        (n + 1) / 2
    } else if field == 8 {
        n
    } else {
        2 * n
    }
}

/// The sizes an `stz2` payload holds.
pub open spec fn stz2_of(p: Seq<u8>) -> Outcome<SizesModel> {
    match full_box(p) {
        None => Err(ErrorKind::Invalid),
        Some((_, _, b)) => if b.len() < 8 {
            Err(ErrorKind::Invalid)
        } else {
            let n = be32(b, 4) as int;
            let field = b[3];
            if n > MAX_SAMPLES {
                Err(ErrorKind::Exhausted)
            } else if field != 4 && field != 8 && field != 16 {
                Err(ErrorKind::Invalid)
            } else if 8 + small_table_len(field, n) > b.len() {
                Err(ErrorKind::Invalid)
            } else {
                Ok(SizesModel::Table(Seq::new(n as nat, |i: int| small_size(b, field, i))))
            }
        },
    }
}

fn parse_stsz(p: &[u8]) -> (res: Result<SampleSizes>)
    ensures
        view_outcome(res) == stsz_of(p@),
{
    let (_v, _f, body) = parse_full_box(p)?;
    let ghost b = body@;
    let mut r: Reader = Reader::new(body);
    let sample_size: u32 = r.u32("stsz sample_size")?;
    let count: u32 = r.u32("stsz sample_count")?;
    if count as usize > MAX_SAMPLES {
        let n: String = decimal(count as u64);
        return Err(HeifError::exhausted(concat(&["stsz declares ", n.as_str(), " samples"])));
    }
    if sample_size != 0 {
        return Ok(SampleSizes::Fixed(sample_size, count as usize));
    }
    if r.remaining() / 4 < count as usize {
        return Err(HeifError::invalid("stsz entry_size: truncated"));
    }
    let mut v: Vec<u32> = Vec::new();
    let mut i: u32 = 0;
    while i < count
        invariant
            i <= count,
            r.wf(),
            r.data() == b,
            r.at() == 8 + 4 * i,
            8 + 4 * count <= b.len(),
            v@ == Seq::new(i as nat, |k: int| be32(b, 8 + 4 * k)),
        decreases count - i,
    {
        let s: u32 = r.u32("stsz entry_size")?;
        v.push(s);
        i = i + 1;
        assert(v@ =~= Seq::new(i as nat, |k: int| be32(b, 8 + 4 * k)));
    }
    Ok(SampleSizes::Table(v))
}

fn parse_stz2(p: &[u8]) -> (res: Result<SampleSizes>)
    ensures
        view_outcome(res) == stz2_of(p@),
{
    let (_v, _f, body) = parse_full_box(p)?;
    let ghost b = body@;
    let mut r: Reader = Reader::new(body);
    r.skip(3, "stz2 reserved")?;
    let field: u8 = r.u8("stz2 field_size")?;
    let count: u32 = r.u32("stz2 sample_count")?;
    if count as usize > MAX_SAMPLES {
        let n: String = decimal(count as u64);
        return Err(HeifError::exhausted(concat(&["stz2 declares ", n.as_str(), " samples"])));
    }
    if field != 4 && field != 8 && field != 16 {
        let n: String = decimal(field as u64);
        return Err(HeifError::invalid(concat(&["stz2 field_size ", n.as_str()])));
    }
    let need: usize = if field == 4 {
        (count as usize + 1) / 2
    } else if field == 8 {
        count as usize
    } else {
        2 * count as usize
    };
    let table: &[u8] = r.bytes(need, "stz2 entries")?;
    assert(table.len() == table@.len());
    let mut v: Vec<u32> = Vec::new();
    let n: usize = count as usize;
    for i in 0..n
        invariant
            n <= MAX_SAMPLES,
            field == 4 || field == 8 || field == 16,
            need == small_table_len(field, n as int),
            table@ == b.subrange(8, 8 + need),
            8 + need <= b.len(),
            table@.len() == need,
            v@ == Seq::new(i as nat, |k: int| small_size(b, field, k)),
    {
        let s: u32 = if field == 4 {
            if i % 2 == 0 {
                (table[i / 2] / 16) as u32
            } else {
                (table[i / 2] % 16) as u32
            }
        } else if field == 8 {
            table[i] as u32
        } else {
            crate::bytes::get16(table, 2 * i) as u32
        };
        v.push(s);
        assert(v@ =~= Seq::new((i + 1) as nat, |k: int| small_size(b, field, k)));
    }
    Ok(SampleSizes::Table(v))
}

/// The chunk offsets of an `stco` (`width` 4) or `co64` (`width` 8) payload.
pub open spec fn offsets_of(p: Seq<u8>, width: int) -> Outcome<Seq<u64>> {
    match full_box(p) {
        None => Err(ErrorKind::Invalid),
        Some((_, _, b)) => if b.len() < 4 || be32(b, 0) > (b.len() - 4) / width {
            Err(ErrorKind::Invalid)
        } else {
            Ok(
                Seq::new(
                    be32(b, 0) as nat,
                    |i: int|
                        if width == 4 {
                            be32(b, 4 + 4 * i) as u64
                        } else {
                            be64(b, 4 + 8 * i)
                        },
                ),
            )
        },
    }
}

fn parse_offsets(p: &[u8], wide: bool) -> (res: Result<Vec<u64>>)
    ensures
        view_outcome(res) == offsets_of(
            p@,
            if wide {
                8
            } else {
                4
            },
        ),
        res matches Ok(v) ==> v@.len() < usize::MAX,
{
    let (_v, _f, body) = parse_full_box(p)?;
    let ghost b = body@;
    let width: usize = if wide {
        8
    } else {
        4
    };
    let mut r: Reader = Reader::new(body);
    let n: u32 = r.u32("stco entry_count")?;
    if n as usize > r.remaining() / width {
        return Err(HeifError::invalid("stco entry_count exceeds the box"));
    }
    let ghost value = |i: int|
        if width == 4 {
            be32(b, 4 + 4 * i) as u64
        } else {
            be64(b, 4 + 8 * i)
        };
    let mut v: Vec<u64> = Vec::new();
    let mut i: u32 = 0;
    while i < n
        invariant
            i <= n,
            r.wf(),
            r.data() == b,
            wide == (width == 8),
            width == 4 || width == 8,
            r.at() == 4 + width * i,
            4 + width * n <= b.len(),
            value == (|i: int|
                if width == 4 {
                    be32(b, 4 + 4 * i) as u64
                } else {
                    be64(b, 4 + 8 * i)
                }),
            v@ == Seq::new(i as nat, value),
            n <= b.len() / 4,
        decreases n - i,
    {
        let x: u64 = if wide {
            r.u64("co64 chunk_offset")?
        } else {
            let y: u32 = r.u32("stco chunk_offset")?;
            y as u64
        };
        v.push(x);
        i = i + 1;
        assert(v@ =~= Seq::new(i as nat, value));
    }
    assert(body.len() == body@.len());
    Ok(v)
}

/// The first chunk, samples per chunk and description of the runs of an `stsc`
/// payload.
pub open spec fn stsc_of(p: Seq<u8>) -> Outcome<Seq<(u32, u32, u32)>> {
    match full_box(p) {
        None => Err(ErrorKind::Invalid),
        Some((_, _, b)) => if b.len() < 4 || be32(b, 0) > (b.len() - 4) / 12 {
            Err(ErrorKind::Invalid)
        } else {
            Ok(
                Seq::new(
                    be32(b, 0) as nat,
                    |i: int|
                        (be32(b, 4 + 12 * i), be32(b, 8 + 12 * i), be32(b, 12 + 12 * i)),
                ),
            )
        },
    }
}

fn parse_stsc(p: &[u8]) -> (res: Result<Vec<(u32, u32, u32)>>)
    ensures
        view_outcome(res) == stsc_of(p@),
{
    let (_v, _f, body) = parse_full_box(p)?;
    let ghost b = body@;
    let mut r: Reader = Reader::new(body);
    let n: u32 = r.u32("stsc entry_count")?;
    if n as usize > r.remaining() / 12 {
        return Err(HeifError::invalid("stsc entry_count exceeds the box"));
    }
    let ghost value = |i: int| (be32(b, 4 + 12 * i), be32(b, 8 + 12 * i), be32(b, 12 + 12 * i));
    let mut v: Vec<(u32, u32, u32)> = Vec::new();
    let mut i: u32 = 0;
    while i < n
        invariant
            i <= n,
            r.wf(),
            r.data() == b,
            r.at() == 4 + 12 * i,
            4 + 12 * n <= b.len(),
            value == (|i: int|
                (be32(b, 4 + 12 * i), be32(b, 8 + 12 * i), be32(b, 12 + 12 * i))),
            v@ == Seq::new(i as nat, value),
        decreases n - i,
    {
        let first: u32 = r.u32("stsc first_chunk")?;
        let per: u32 = r.u32("stsc samples_per_chunk")?;
        let desc: u32 = r.u32("stsc sample_description_index")?;
        v.push((first, per, desc));
        i = i + 1;
        assert(v@ =~= Seq::new(i as nat, value));
    }
    Ok(v)
}

/// The values of `n` runs at `p`, each repeated as often as its run says, after
/// those in `acc`: unsigned, or signed 32-bit numbers.
pub open spec fn run_values(b: Seq<u8>, p: int, n: int, signed: bool, acc: Seq<i64>) -> Outcome<
    Seq<i64>,
>
    decreases n,
{
    if n <= 0 {
        Ok(acc)
    } else {
        let count = be32(b, p) as int;
        let v = be32(b, p + 4);
        let x = if signed {
            signed32(v) as i64
        } else {
            v as i64
        };
        if acc.len() + count > MAX_SAMPLES {
            Err(ErrorKind::Exhausted)
        } else {
            run_values(b, p + 8, n - 1, signed, acc + Seq::new(count as nat, |i: int| x))
        }
    }
}

/// The values an `stts` or `ctts` payload holds, one per sample; those of a
/// `ctts` box of version 1 are signed.
pub open spec fn runs_of(p: Seq<u8>, composition: bool) -> Outcome<Seq<i64>> {
    match full_box(p) {
        None => Err(ErrorKind::Invalid),
        Some((v, _, b)) => if b.len() < 4 || be32(b, 0) > (b.len() - 4) / 8 {
            Err(ErrorKind::Invalid)
        } else {
            run_values(b, 4, be32(b, 0) as int, composition && v == 1, Seq::empty())
        },
    }
}

/// Whether every value is a 32-bit number.
pub open spec fn small_values(v: Seq<i64>) -> bool {
    forall|i: int| 0 <= i < v.len() ==> 0 <= #[trigger] v[i] <= u32::MAX
}

proof fn lemma_run_values(b: Seq<u8>, p: int, n: int, acc: Seq<i64>)
    requires
        small_values(acc),
    ensures
        run_values(b, p, n, false, acc) matches Ok(v) ==> small_values(v),
    decreases n,
{
    if n > 0 {
        let count = be32(b, p) as int;
        let x = be32(b, p + 4) as i64;
        let next = acc + Seq::new(count as nat, |i: int| x);
        lemma_run_values(b, p + 8, n - 1, next);
    }
}

fn parse_runs(p: &[u8], composition: bool) -> (res: Result<Vec<i64>>)
    ensures
        view_outcome(res) == runs_of(p@, composition),
        res matches Ok(v) ==> v@.len() <= MAX_SAMPLES,
        res matches Ok(v) ==> !composition ==> small_values(v@),
{
    let (version, _f, body) = parse_full_box(p)?;
    let ghost b = body@;
    let signed: bool = composition && version == 1;
    let mut r: Reader = Reader::new(body);
    let n: u32 = r.u32("stts entry_count")?;
    if n as usize > r.remaining() / 8 {
        return Err(HeifError::invalid("stts entry_count exceeds the box"));
    }
    let ghost goal = run_values(b, 4, n as int, signed, Seq::empty());
    let mut v: Vec<i64> = Vec::new();
    assert(v@ =~= Seq::empty());
    let mut i: u32 = 0;
    while i < n
        invariant
            i <= n,
            r.wf(),
            r.data() == b,
            r.at() == 4 + 8 * i,
            4 + 8 * n <= b.len(),
            v@.len() <= MAX_SAMPLES,
            !composition ==> !signed,
            goal == runs_of(p@, composition),
            goal == run_values(b, 4, n as int, signed, Seq::empty()),
            goal == run_values(b, r.at(), n - i, signed, v@),
        decreases n - i,
    {
        let count: u32 = r.u32("stts sample_count")?;
        let raw: u32 = r.u32("stts sample_delta")?;
        let x: i64 = if signed {
            crate::bytes::to_i32(raw) as i64
        } else {
            raw as i64
        };
        if count as u64 > MAX_SAMPLES as u64 - v.len() as u64 {
            return Err(HeifError::exhausted("stts expands past the sample cap"));
        }
        let ghost before = v@;
        let mut k: u32 = 0;
        while k < count
            invariant
                k <= count,
                v@ == before + Seq::new(k as nat, |i: int| x),
            decreases count - k,
        {
            v.push(x);
            k = k + 1;
            assert(v@ =~= before + Seq::new(k as nat, |i: int| x));
        }
        i = i + 1;
    }
    proof {
        if !composition {
            lemma_run_values(b, 4, n as int, Seq::empty());
        }
    }
    Ok(v)
}

/// The sample numbers an `stss` payload holds.
pub open spec fn stss_of(p: Seq<u8>) -> Outcome<Seq<u32>> {
    match full_box(p) {
        None => Err(ErrorKind::Invalid),
        Some((_, _, b)) => if b.len() < 4 || be32(b, 0) > (b.len() - 4) / 4 {
            Err(ErrorKind::Invalid)
        } else {
            Ok(Seq::new(be32(b, 0) as nat, |i: int| be32(b, 4 + 4 * i)))
        },
    }
}

fn parse_stss(p: &[u8]) -> (res: Result<Vec<u32>>)
    ensures
        view_outcome(res) == stss_of(p@),
{
    let (_v, _f, body) = parse_full_box(p)?;
    let ghost b = body@;
    let mut r: Reader = Reader::new(body);
    let n: u32 = r.u32("stss entry_count")?;
    if n as usize > r.remaining() / 4 {
        return Err(HeifError::invalid("stss entry_count exceeds the box"));
    }
    let mut v: Vec<u32> = Vec::new();
    let mut i: u32 = 0;
    while i < n
        invariant
            i <= n,
            r.wf(),
            r.data() == b,
            r.at() == 4 + 4 * i,
            4 + 4 * n <= b.len(),
            v@ == Seq::new(i as nat, |k: int| be32(b, 4 + 4 * k)),
        decreases n - i,
    {
        let s: u32 = r.u32("stss sample_number")?;
        v.push(s);
        i = i + 1;
        assert(v@ =~= Seq::new(i as nat, |k: int| be32(b, 4 + 4 * k)));
    }
    Ok(v)
}

/// What the boxes of a sample table say.
pub struct Tables {
    /// The sample sizes.
    pub sizes: SizesModel,
    /// The file offsets of the chunks.
    pub chunks: Seq<u64>,
    /// First chunk, samples per chunk and description of each run of chunks.
    pub runs: Seq<(u32, u32, u32)>,
    /// The durations; missing ones are 0.
    pub durations: Seq<i64>,
    /// The composition offsets; missing ones are 0.
    pub compositions: Seq<i64>,
    /// The numbers of the sync samples; `None` when every sample is one.
    pub sync: Option<Seq<u32>>,
    /// The length of the file.
    pub file_len: u64,
}

/// What is expanded so far: the samples, and the decode time of the next.
pub struct Expansion {
    /// The samples.
    pub samples: Seq<Sample>,
    /// The decode time of the next sample.
    pub dts: u64,
}

/// Value `i` of a list, 0 past its end.
pub open spec fn or_zero(s: Seq<i64>, i: int) -> i64 {
    if i < s.len() {
        s[i]
    } else {
        0
    }
}

impl Tables {
    /// Sample `i` at a file offset and decode time.
    pub open spec fn sample(self, i: int, offset: u64, dts: u64, description_index: u32) -> Sample {
        Sample {
            offset,
            size: self.sizes.size(i),
            dts,
            cts_offset: or_zero(self.compositions, i),
            duration: or_zero(self.durations, i) as u32,
            is_sync: match self.sync {
                Some(s) => s.contains((i + 1) as u32),
                None => true,
            },
            description_index,
        }
    }

    /// The expansion with up to `n` more samples of a chunk, the next at file
    /// offset `offset`.
    pub open spec fn chunk(self, st: Expansion, offset: u64, n: int, description_index: u32) -> Outcome<
        Expansion,
    >
        decreases n,
    {
        let i = st.samples.len() as int;
        if n <= 0 || i >= self.sizes.count() {
            Ok(st)
        } else {
            let end = offset + self.sizes.size(i);
            if end > self.file_len {
                Err(ErrorKind::Invalid)
            } else {
                let s = self.sample(i, offset, st.dts, description_index);
                let next = Expansion {
                    samples: st.samples.push(s),
                    dts: if st.dts + s.duration > u64::MAX {
                        u64::MAX
                    } else {
                        (st.dts + s.duration) as u64
                    },
                };
                self.chunk(next, end as u64, n - 1, description_index)
            }
        }
    }

    /// The expansion with the chunks `chunk..=last` of a run.
    pub open spec fn run(self, st: Expansion, chunk: int, last: int, per: u32, description_index: u32) -> Outcome<
        Expansion,
    >
        decreases last - chunk + 1,
    {
        if chunk > last {
            Ok(st)
        } else if chunk > self.chunks.len() {
            Err(ErrorKind::Invalid)
        } else {
            match self.chunk(st, self.chunks[chunk - 1], per as int, description_index) {
                Err(e) => Err(e),
                Ok(next) => self.run(next, chunk + 1, last, per, description_index),
            }
        }
    }

    /// The expansion with the runs from the `i`-th on. A run goes up to the
    /// chunk before the next run.
    pub open spec fn expand(self, st: Expansion, i: int) -> Outcome<Expansion>
        decreases self.runs.len() - i,
    {
        if i >= self.runs.len() {
            Ok(st)
        } else {
            let (first, per, description_index) = self.runs[i];
            if first == 0 || first > self.chunks.len() {
                Err(ErrorKind::Invalid)
            } else if i + 1 < self.runs.len() && self.runs[i + 1].0 <= first {
                Err(ErrorKind::Invalid)
            } else {
                let last = if i + 1 < self.runs.len() {
                    self.runs[i + 1].0 - 1
                } else {
                    self.chunks.len() as int
                };
                match self.run(st, first as int, last, per, description_index) {
                    Err(e) => Err(e),
                    Ok(next) => self.expand(next, i + 1),
                }
            }
        }
    }

    /// The samples of the table.
    pub open spec fn samples(self) -> Outcome<Seq<Sample>> {
        match self.expand(Expansion { samples: Seq::empty(), dts: 0 }, 0) {
            Err(e) => Err(e),
            Ok(st) => if st.samples.len() != self.sizes.count() {
                Err(ErrorKind::Invalid)
            } else {
                Ok(st.samples)
            },
        }
    }
}

/// The payload of a box a sample table must have.
pub open spec fn required(stbl: Seq<u8>, t: FourCc) -> Outcome<Seq<u8>> {
    match last_box(stbl, 0, t, None) {
        Err(e) => Err(e),
        Ok(None) => Err(ErrorKind::Invalid),
        Ok(Some(p)) => Ok(p),
    }
}

/// The sizes of a sample table: `stsz`, else `stz2`.
pub open spec fn sizes_of(stbl: Seq<u8>) -> Outcome<SizesModel> {
    match last_box(stbl, 0, tags::STSZ, None) {
        Err(e) => Err(e),
        Ok(Some(p)) => stsz_of(p),
        Ok(None) => match required(stbl, tags::STZ2) {
            Err(e) => Err(e),
            Ok(p) => stz2_of(p),
        },
    }
}

/// The chunk offsets of a sample table: `stco`, else `co64`.
pub open spec fn chunks_of(stbl: Seq<u8>) -> Outcome<Seq<u64>> {
    match last_box(stbl, 0, tags::STCO, None) {
        Err(e) => Err(e),
        Ok(Some(p)) => offsets_of(p, 4),
        Ok(None) => match required(stbl, tags::CO64) {
            Err(e) => Err(e),
            Ok(p) => offsets_of(p, 8),
        },
    }
}

/// The composition offsets of a sample table.
pub open spec fn compositions_of(stbl: Seq<u8>) -> Outcome<Seq<i64>> {
    match last_box(stbl, 0, tags::CTTS, None) {
        Err(e) => Err(e),
        Ok(Some(p)) => runs_of(p, true),
        Ok(None) => Ok(Seq::empty()),
    }
}

/// The sync samples of a sample table.
pub open spec fn sync_of(stbl: Seq<u8>) -> Outcome<Option<Seq<u32>>> {
    match last_box(stbl, 0, tags::STSS, None) {
        Err(e) => Err(e),
        Ok(Some(p)) => match stss_of(p) {
            Err(e) => Err(e),
            Ok(v) => Ok(Some(v)),
        },
        Ok(None) => Ok(None),
    }
}

/// What the boxes of a sample table say.
pub open spec fn tables_of(stbl: Seq<u8>, file_len: u64) -> Outcome<Tables> {
    match required(stbl, tags::STTS) {
        Err(e) => Err(e),
        Ok(stts) => match required(stbl, tags::STSC) {
            Err(e) => Err(e),
            Ok(stsc) => match sizes_of(stbl) {
                Err(e) => Err(e),
                Ok(sizes) => match chunks_of(stbl) {
                    Err(e) => Err(e),
                    Ok(chunks) => match stsc_of(stsc) {
                        Err(e) => Err(e),
                        Ok(runs) => match runs_of(stts, false) {
                            Err(e) => Err(e),
                            Ok(durations) => match compositions_of(stbl) {
                                Err(e) => Err(e),
                                Ok(compositions) => match sync_of(stbl) {
                                    Err(e) => Err(e),
                                    Ok(sync) => Ok(
                                        Tables {
                                            sizes,
                                            chunks,
                                            runs,
                                            durations,
                                            compositions,
                                            sync,
                                            file_len,
                                        },
                                    ),
                                },
                            },
                        },
                    },
                },
            },
        },
    }
}

/// The samples a sample table describes.
pub open spec fn sample_table_of(stbl: Seq<u8>, file_len: u64) -> Outcome<Seq<Sample>> {
    match tables_of(stbl, file_len) {
        Err(e) => Err(e),
        Ok(t) => t.samples(),
    }
}

/// The parsed boxes of a sample table.
struct TableData {
    sizes: SampleSizes,
    chunks: Vec<u64>,
    runs: Vec<(u32, u32, u32)>,
    durations: Vec<i64>,
    compositions: Vec<i64>,
    sync: Option<Vec<bool>>,
    file_len: u64,
}

impl TableData {
    spec fn holds(&self, t: Tables) -> bool {
        &&& self.sizes@ == t.sizes
        &&& t.sizes.count() <= MAX_SAMPLES
        &&& self.chunks@ == t.chunks
        &&& t.chunks.len() < usize::MAX
        &&& self.runs@ == t.runs
        &&& self.durations@ == t.durations
        &&& small_values(t.durations)
        &&& self.compositions@ == t.compositions
        &&& self.file_len == t.file_len
        &&& match (self.sync, t.sync) {
            (None, None) => true,
            (Some(flags), Some(s)) => {
                &&& flags@.len() == t.sizes.count()
                &&& forall|i: int|
                    0 <= i < flags@.len() ==> #[trigger] flags@[i] == s.contains((i + 1) as u32)
            },
            _ => false,
        }
    }

    /// Up to `n` more samples of a chunk.
    fn chunk(
        &self,
        out: &mut Vec<Sample>,
        dts: &mut u64,
        offset: u64,
        n: u32,
        description_index: u32,
        Ghost(t): Ghost<Tables>,
    ) -> (res: Result<()>)
        requires
            self.holds(t),
        ensures
            ({
                let goal = t.chunk(
                    Expansion { samples: old(out)@, dts: *old(dts) },
                    offset,
                    n as int,
                    description_index,
                );
                match res {
                    Ok(_) => goal == Ok::<Expansion, ErrorKind>(
                        Expansion { samples: final(out)@, dts: *final(dts) },
                    ),
                    Err(e) => goal == Err::<Expansion, ErrorKind>(e.kind()),
                }
            }),
    {
        let ghost goal = t.chunk(
            Expansion { samples: out@, dts: *dts },
            offset,
            n as int,
            description_index,
        );
        let count: usize = self.sizes.count();
        let mut off: u64 = offset;
        let mut left: u32 = n;
        while left > 0 && out.len() < count
            invariant
                self.holds(t),
                count == t.sizes.count(),
                goal == t.chunk(
                    Expansion { samples: old(out)@, dts: *old(dts) },
                    offset,
                    n as int,
                    description_index,
                ),
                goal == t.chunk(
                    Expansion { samples: out@, dts: *dts },
                    off,
                    left as int,
                    description_index,
                ),
            decreases left,
        {
            let i: usize = out.len();
            let size: u32 = self.sizes.get(i);
            if size as u64 > self.file_len || off > self.file_len - size as u64 {
                let k: String = decimal(i as u64);
                let f: String = decimal(self.file_len);
                return Err(
                    HeifError::invalid(
                        concat(&["sample ", k.as_str(), " past the ", f.as_str(), "-byte file"]),
                    ),
                );
            }
            let duration: u32 = if i < self.durations.len() {
                assert(0 <= t.durations[i as int] <= u32::MAX);
                self.durations[i] as u32
            } else {
                0
            };
            let cts_offset: i64 = if i < self.compositions.len() {
                self.compositions[i]
            } else {
                0
            };
            let is_sync: bool = match &self.sync {
                Some(flags) => flags[i],
                None => true,
            };
            out.push(
                Sample { offset: off, size, dts: *dts, cts_offset, duration, is_sync, description_index },
            );
            *dts = dts.saturating_add(duration as u64);
            off = off + size as u64;
            left = left - 1;
        }
        Ok(())
    }

    /// The chunks `first..=last` of a run.
    fn run(
        &self,
        out: &mut Vec<Sample>,
        dts: &mut u64,
        first: u32,
        last: usize,
        per: u32,
        description_index: u32,
        Ghost(t): Ghost<Tables>,
    ) -> (res: Result<()>)
        requires
            self.holds(t),
            first > 0,
            last < usize::MAX,
        ensures
            ({
                let goal = t.run(
                    Expansion { samples: old(out)@, dts: *old(dts) },
                    first as int,
                    last as int,
                    per,
                    description_index,
                );
                match res {
                    Ok(_) => goal == Ok::<Expansion, ErrorKind>(
                        Expansion { samples: final(out)@, dts: *final(dts) },
                    ),
                    Err(e) => goal == Err::<Expansion, ErrorKind>(e.kind()),
                }
            }),
    {
        let ghost goal = t.run(
            Expansion { samples: out@, dts: *dts },
            first as int,
            last as int,
            per,
            description_index,
        );
        let mut chunk: usize = first as usize;
        while chunk <= last
            invariant
                self.holds(t),
                0 < chunk,
                last < usize::MAX,
                goal == t.run(
                    Expansion { samples: old(out)@, dts: *old(dts) },
                    first as int,
                    last as int,
                    per,
                    description_index,
                ),
                goal == t.run(
                    Expansion { samples: out@, dts: *dts },
                    chunk as int,
                    last as int,
                    per,
                    description_index,
                ),
            decreases last - chunk + 1,
        {
            if chunk > self.chunks.len() {
                return Err(HeifError::invalid("stsc names a chunk that has no offset"));
            }
            self.chunk(out, dts, self.chunks[chunk - 1], per, description_index, Ghost(t))?;
            chunk = chunk + 1;
        }
        Ok(())
    }

    /// The samples of the table.
    fn samples(&self, Ghost(t): Ghost<Tables>) -> (res: Result<Vec<Sample>>)
        requires
            self.holds(t),
        ensures
            view_outcome(res) == t.samples(),
    {
        let ghost first_state = Expansion { samples: Seq::empty(), dts: 0 };
        let ghost goal = t.expand(first_state, 0);
        let mut out: Vec<Sample> = Vec::new();
        let mut dts: u64 = 0;
        assert(out@ =~= Seq::empty());
        assert(self.chunks.len() == self.chunks@.len());
        let n: usize = self.runs.len();
        for i in 0..n
            invariant
                self.holds(t),
                n == t.runs.len(),
                first_state == (Expansion { samples: Seq::empty(), dts: 0 }),
                goal == t.expand(first_state, 0),
                goal == t.expand(Expansion { samples: out@, dts }, i as int),
        {
            let (first, per, description_index) = self.runs[i];
            if first == 0 || first as usize > self.chunks.len() {
                let k: String = decimal(i as u64);
                let f: String = decimal(first as u64);
                let c: String = decimal(self.chunks.len() as u64);
                return Err(
                    HeifError::invalid(
                        concat(
                            &[
                                "stsc entry ",
                                k.as_str(),
                                ": first_chunk ",
                                f.as_str(),
                                " outside the ",
                                c.as_str(),
                                " chunks",
                            ],
                        ),
                    ),
                );
            }
            let last: usize = if i + 1 < n {
                let next: u32 = self.runs[i + 1].0;
                if next <= first {
                    return Err(HeifError::invalid("stsc first_chunk not increasing"));
                }
                next as usize - 1
            } else {
                self.chunks.len()
            };
            self.run(&mut out, &mut dts, first, last, per, description_index, Ghost(t))?;
        }
        if out.len() != self.sizes.count() {
            let a: String = decimal(out.len() as u64);
            let b: String = decimal(self.sizes.count() as u64);
            return Err(
                HeifError::invalid(
                    concat(
                        &[
                            "sample table describes ",
                            a.as_str(),
                            " samples but stsz declares ",
                            b.as_str(),
                        ],
                    ),
                ),
            );
        }
        Ok(out)
    }
}

/// Which of `count` samples a list of sample numbers names.
fn flags_of(numbers: &Vec<u32>, count: usize) -> (r: Vec<bool>)
    requires
        count <= MAX_SAMPLES,
    ensures
        r@.len() == count,
        forall|i: int| 0 <= i < count ==> #[trigger] r@[i] == numbers@.contains((i + 1) as u32),
{
    let mut flags: Vec<bool> = Vec::new();
    for i in 0..count
        invariant
            flags@.len() == i,
            forall|k: int| 0 <= k < i ==> !(#[trigger] flags@[k]),
    {
        flags.push(false);
    }
    assert(numbers@.take(0) =~= Seq::empty());
    for i in 0..numbers.len()
        invariant
            count <= MAX_SAMPLES,
            flags@.len() == count,
            forall|k: int|
                0 <= k < count ==> #[trigger] flags@[k] == numbers@.take(i as int).contains(
                    (k + 1) as u32,
                ),
    {
        let s: u32 = numbers[i];
        let ghost before = flags@;
        if s >= 1 && s as usize <= count {
            flags.set(s as usize - 1, true);
        }
        proof {
            let now = numbers@.take(i + 1);
            let was = numbers@.take(i as int);
            assert(now =~= was.push(s));
            assert forall|k: int| 0 <= k < count implies #[trigger] flags@[k] == now.contains(
                (k + 1) as u32,
            ) by {
                let x = (k + 1) as u32;
                assert(now[i as int] == s);
                if was.contains(x) {
                    let j = choose|j: int| 0 <= j < was.len() && was[j] == x;
                    assert(now[j] == x);
                }
                if now.contains(x) {
                    let j = choose|j: int| 0 <= j < now.len() && now[j] == x;
                    if j < was.len() {
                        assert(was[j] == x);
                    }
                }
                assert(before[k] == was.contains(x));
            }
        }
    }
    assert(numbers@.take(numbers@.len() as int) =~= numbers@);
    flags
}

fn find_required<'a>(stbl: &'a [u8], t: &FourCc, what: &str) -> (res: Result<&'a [u8]>)
    ensures
        match res {
            Ok(p) => required(stbl@, *t) == Ok::<Seq<u8>, ErrorKind>(p@),
            Err(e) => required(stbl@, *t) == Err::<Seq<u8>, ErrorKind>(e.kind()),
        },
{
    match find_last(stbl, t)? {
        Some(p) => Ok(p),
        None => Err(HeifError::invalid(concat(&["stbl without ", what]))),
    }
}

fn parse_sizes(stbl: &[u8]) -> (res: Result<SampleSizes>)
    ensures
        view_outcome(res) == sizes_of(stbl@),
{
    match find_last(stbl, &tags::STSZ)? {
        Some(p) => parse_stsz(p),
        None => {
            let p: &[u8] = find_required(stbl, &tags::STZ2, "stsz / stz2")?;
            parse_stz2(p)
        },
    }
}

fn parse_chunks(stbl: &[u8]) -> (res: Result<Vec<u64>>)
    ensures
        view_outcome(res) == chunks_of(stbl@),
        res matches Ok(v) ==> v@.len() < usize::MAX,
{
    match find_last(stbl, &tags::STCO)? {
        Some(p) => parse_offsets(p, false),
        None => {
            let p: &[u8] = find_required(stbl, &tags::CO64, "stco / co64")?;
            parse_offsets(p, true)
        },
    }
}

fn parse_compositions(stbl: &[u8]) -> (res: Result<Vec<i64>>)
    ensures
        view_outcome(res) == compositions_of(stbl@),
{
    match find_last(stbl, &tags::CTTS)? {
        Some(p) => parse_runs(p, true),
        None => {
            let v: Vec<i64> = Vec::new();
            assert(v@ =~= Seq::empty());
            Ok(v)
        },
    }
}

/// The number of sizes is within the cap.
proof fn lemma_sizes_bound(stbl: Seq<u8>)
    ensures
        sizes_of(stbl) matches Ok(s) ==> 0 <= s.count() <= MAX_SAMPLES,
{
}

/// Parse the sample table of a track: the flat list of its samples.
pub fn parse_sample_table(stbl: &[u8], file_len: u64) -> (res: Result<Vec<Sample>>)
    ensures
        view_outcome(res) == sample_table_of(stbl@, file_len),
{
    let stts: &[u8] = find_required(stbl, &tags::STTS, "stts")?;
    let stsc: &[u8] = find_required(stbl, &tags::STSC, "stsc")?;
    let sizes: SampleSizes = parse_sizes(stbl)?;
    proof {
        lemma_sizes_bound(stbl@);
    }
    let chunks: Vec<u64> = parse_chunks(stbl)?;
    let runs: Vec<(u32, u32, u32)> = parse_stsc(stsc)?;
    let durations: Vec<i64> = parse_runs(stts, false)?;
    let compositions: Vec<i64> = parse_compositions(stbl)?;
    let sync: Option<Vec<bool>> = match find_last(stbl, &tags::STSS)? {
        Some(p) => {
            let numbers: Vec<u32> = parse_stss(p)?;
            Some(flags_of(&numbers, sizes.count()))
        },
        None => None,
    };
    let table = TableData { sizes, chunks, runs, durations, compositions, sync, file_len };
    table.samples(Ghost(tables_of(stbl@, file_len)->Ok_0))
}

/// The decode time after a sample.
pub open spec fn next_time(s: Sample) -> u64 {
    if s.dts + s.duration > u64::MAX {
        u64::MAX
    } else {
        (s.dts + s.duration) as u64
    }
}

/// Whether every sample lies in a file of the given length, and each is decoded
/// when the one before it ends, the first at time 0.
pub open spec fn consistent(s: Seq<Sample>, file_len: u64) -> bool {
    &&& forall|i: int|
        0 <= i < s.len() ==> (#[trigger] s[i]).offset + s[i].size <= file_len
    &&& s.len() > 0 ==> s[0].dts == 0
    &&& forall|i: int| 0 < i < s.len() ==> (#[trigger] s[i]).dts == next_time(s[i - 1])
}

spec fn steady(st: Expansion, file_len: u64) -> bool {
    &&& consistent(st.samples, file_len)
    &&& st.dts == (if st.samples.len() == 0 {
        0
    } else {
        next_time(st.samples.last())
    })
}

proof fn lemma_chunk_steady(t: Tables, st: Expansion, offset: u64, n: int, d: u32)
    requires
        steady(st, t.file_len),
    ensures
        t.chunk(st, offset, n, d) matches Ok(x) ==> steady(x, t.file_len),
    decreases n,
{
    let i = st.samples.len() as int;
    if n > 0 && i < t.sizes.count() && offset + t.sizes.size(i) <= t.file_len {
        let s = t.sample(i, offset, st.dts, d);
        let next = Expansion { samples: st.samples.push(s), dts: next_time(s) };
        lemma_chunk_steady(t, next, (offset + t.sizes.size(i)) as u64, n - 1, d);
    }
}

proof fn lemma_run_steady(t: Tables, st: Expansion, chunk: int, last: int, per: u32, d: u32)
    requires
        steady(st, t.file_len),
    ensures
        t.run(st, chunk, last, per, d) matches Ok(x) ==> steady(x, t.file_len),
    decreases last - chunk + 1,
{
    if chunk <= last && chunk <= t.chunks.len() {
        lemma_chunk_steady(t, st, t.chunks[chunk - 1], per as int, d);
        if let Ok(next) = t.chunk(st, t.chunks[chunk - 1], per as int, d) {
            lemma_run_steady(t, next, chunk + 1, last, per, d);
        }
    }
}

proof fn lemma_expand_steady(t: Tables, st: Expansion, i: int)
    requires
        steady(st, t.file_len),
        0 <= i,
    ensures
        t.expand(st, i) matches Ok(x) ==> steady(x, t.file_len),
    decreases t.runs.len() - i,
{
    if i < t.runs.len() {
        let (first, per, d) = t.runs[i];
        let last = if i + 1 < t.runs.len() {
            t.runs[i + 1].0 - 1
        } else {
            t.chunks.len() as int
        };
        lemma_run_steady(t, st, first as int, last, per, d);
        if let Ok(next) = t.run(st, first as int, last, per, d) {
            lemma_expand_steady(t, next, i + 1);
        }
    }
}

/// A sample table that is accepted describes as many samples as it declares
/// sizes, at most [`MAX_SAMPLES`], every one of them inside the file; each is
/// decoded when the one before it ends.
#[verifier::rlimit(50)]
pub proof fn law_sample_table(stbl: Seq<u8>, file_len: u64)
    ensures
        sample_table_of(stbl, file_len) matches Ok(v) ==> {
            &&& consistent(v, file_len)
            &&& v.len() <= MAX_SAMPLES
            &&& sizes_of(stbl) matches Ok(s) && v.len() == s.count()
        },
{
    lemma_sizes_bound(stbl);
    if let Ok(t) = tables_of(stbl, file_len) {
        lemma_expand_steady(t, Expansion { samples: Seq::empty(), dts: 0 }, 0);
    }
}

} // verus!
