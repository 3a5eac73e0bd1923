//! Sample groups and segment boxes: `sbgp`, `csgp`, `sgpd` (ISO/IEC 14496-12
//! §8.9), `prft` and `ssix` (§8.16).
use crate::boxes::{fourcc_at, full_box, parse_full_box, FourCc, Reader};
use crate::bytes::{be24, be32, be64, copy_of, lists};
use crate::error::{plain_outcome, view_outcome, ErrorKind, HeifError, Outcome, Result};
use crate::sequence::{
    range_lists, ProducerReferenceTime, SampleGroup, SampleGroupDescription, SampleGroupDescriptionModel,
    SampleGroupModel, SubsegmentIndex, SubsegmentIndexModel, MAX_GROUP_ENTRIES,
};
use vstd::prelude::*;

verus! {

/// What a `prft` payload holds.
pub open spec fn prft_of(p: Seq<u8>) -> Outcome<ProducerReferenceTime> {
    match full_box(p) {
        None => Err(ErrorKind::Invalid),
        Some((v, flags, b)) => {
            let width: int = if v == 0 {
                4
            } else {
                8
            };
            if b.len() < 12 + width {
                Err(ErrorKind::Invalid)
            } else {
                Ok(
                    ProducerReferenceTime {
                        flags,
                        reference_track_id: be32(b, 0),
                        ntp_timestamp: be64(b, 4),
                        media_time: if v == 0 {
                            be32(b, 12) as u64
                        } else {
                            be64(b, 12)
                        },
                    },
                )
            }
        },
    }
}

/// `prft` (§8.16.5.2).
pub fn parse_prft(p: &[u8]) -> (res: Result<ProducerReferenceTime>)
    ensures
        plain_outcome(res) == prft_of(p@),
{
    let (v, flags, body) = parse_full_box(p)?;
    let mut r: Reader = Reader::new(body);
    let reference_track_id: u32 = r.u32("prft reference_track_ID")?;
    let ntp_timestamp: u64 = r.u64("prft ntp_timestamp")?;
    let media_time: u64 = if v == 0 {
        let t: u32 = r.u32("prft media_time")?;
        t as u64
    } else {
        r.u64("prft media_time")?
    };
    Ok(ProducerReferenceTime { flags, reference_track_id, ntp_timestamp, media_time })
}

/// The `n` level / size pairs at `p`.
pub open spec fn ranges_at(b: Seq<u8>, p: int, n: int) -> Seq<(u8, u32)> {
    Seq::new(n as nat, |i: int| (b[p + 4 * i], be24(b, p + 4 * i + 1)))
}

/// The ranges of the `n` subsegments at `p`, after those in `acc`.
pub open spec fn subsegments_at(b: Seq<u8>, p: int, n: int, acc: Seq<Seq<(u8, u32)>>) -> Outcome<
    Seq<Seq<(u8, u32)>>,
>
    decreases n,
{
    if n <= 0 {
        Ok(acc)
    } else if p + 4 > b.len() {
        Err(ErrorKind::Invalid)
    } else {
        let count = be32(b, p) as int;
        if p + 4 + 4 * count > b.len() {
            Err(ErrorKind::Invalid)
        } else {
            subsegments_at(b, p + 4 + 4 * count, n - 1, acc.push(ranges_at(b, p + 4, count)))
        }
    }
}

/// What an `ssix` payload holds.
pub open spec fn ssix_of(p: Seq<u8>) -> Outcome<SubsegmentIndexModel> {
    match full_box(p) {
        None => Err(ErrorKind::Invalid),
        Some((_, _, b)) => if b.len() < 4 {
            Err(ErrorKind::Invalid)
        } else if be32(b, 0) > (b.len() - 4) / 4 {
            Err(ErrorKind::Invalid)
        } else {
            match subsegments_at(b, 4, be32(b, 0) as int, Seq::empty()) {
                Err(e) => Err(e),
                Ok(subsegments) => Ok(SubsegmentIndexModel { subsegments }),
            }
        },
    }
}

/// `ssix` (§8.16.4.2).
pub fn parse_ssix(p: &[u8]) -> (res: Result<SubsegmentIndex>)
    ensures
        view_outcome(res) == ssix_of(p@),
{
    let (_v, _f, body) = parse_full_box(p)?;
    let ghost b = body@;
    let mut r: Reader = Reader::new(body);
    let n: u32 = r.u32("ssix subsegment_count")?;
    if n as usize > r.remaining() / 4 {
        return Err(HeifError::invalid("ssix subsegment_count exceeds the box"));
    }
    let mut subsegments: Vec<Vec<(u8, u32)>> = Vec::new();
    let ghost goal = subsegments_at(b, 4, n as int, Seq::empty());
    proof {
        assert(range_lists(subsegments@) =~= Seq::empty());
    }
    let mut i: u32 = 0;
    while i < n
        invariant
            i <= n,
            r.wf(),
            r.data() == b,
            full_box(p@) is Some,
            full_box(p@)->Some_0.2 == b,
            n == be32(b, 0),
            b.len() >= 4,
            n <= (b.len() - 4) / 4,
            goal == subsegments_at(b, 4, n as int, Seq::empty()),
            goal == subsegments_at(b, r.at(), n - i, range_lists(subsegments@)),
        decreases n - i,
    {
        let ghost start = r.at();
        let count: u32 = r.u32("ssix range_count")?;
        if count as usize > r.remaining() / 4 {
            return Err(HeifError::invalid("ssix range_count exceeds the box"));
        }
        let mut ranges: Vec<(u8, u32)> = Vec::new();
        let mut k: u32 = 0;
        while k < count
            invariant
                k <= count,
                r.wf(),
                r.data() == b,
                r.at() == start + 4 + 4 * k,
                start + 4 + 4 * count <= b.len(),
                ranges@ == ranges_at(b, start + 4, k as int),
            decreases count - k,
        {
            let level: u8 = r.u8("ssix level")?;
            let size: u32 = r.u24("ssix range_size")?;
            ranges.push((level, size));
            k = k + 1;
            assert(ranges@ =~= ranges_at(b, start + 4, k as int));
        }
        let ghost before = range_lists(subsegments@);
        subsegments.push(ranges);
        proof {
            assert(range_lists(subsegments@) =~= before.push(ranges@));
        }
        i = i + 1;
    }
    Ok(SubsegmentIndex { subsegments })
}

/// The `n` count / index pairs at `p`.
pub open spec fn runs_at(b: Seq<u8>, p: int, n: int) -> Seq<(u32, u32)> {
    Seq::new(n as nat, |i: int| (be32(b, p + 8 * i), be32(b, p + 8 * i + 4)))
}

/// What an `sbgp` payload holds.
pub open spec fn sbgp_of(p: Seq<u8>) -> Outcome<SampleGroupModel> {
    match full_box(p) {
        None => Err(ErrorKind::Invalid),
        Some((v, _, b)) => {
            let at: int = if v == 1 {
                8
            } else {
                4
            };
            if b.len() < at + 4 {
                Err(ErrorKind::Invalid)
            } else {
                let n = be32(b, at) as int;
                if n > (b.len() - at - 4) / 8 || n > MAX_GROUP_ENTRIES {
                    Err(ErrorKind::Invalid)
                } else {
                    Ok(
                        SampleGroupModel {
                            grouping_type: fourcc_at(b, 0),
                            grouping_type_parameter: if v == 1 {
                                Some(be32(b, 4))
                            } else {
                                None
                            },
                            entries: runs_at(b, at + 4, n),
                            compact: false,
                        },
                    )
                }
            }
        },
    }
}

/// `sbgp` (§8.9.2.2).
pub fn parse_sbgp(p: &[u8]) -> (res: Result<SampleGroup>)
    ensures
        view_outcome(res) == sbgp_of(p@),
{
    let (v, _f, body) = parse_full_box(p)?;
    let ghost b = body@;
    let mut r: Reader = Reader::new(body);
    let grouping_type: FourCc = r.fourcc("sbgp grouping_type")?;
    let grouping_type_parameter: Option<u32> = if v == 1 {
        let q: u32 = r.u32("sbgp grouping_type_parameter")?;
        Some(q)
    } else {
        None
    };
    let n: u32 = r.u32("sbgp entry_count")?;
    if n as usize > r.remaining() / 8 || n as usize > MAX_GROUP_ENTRIES {
        return Err(HeifError::invalid("sbgp entry_count exceeds the box"));
    }
    let ghost start = r.at();
    let mut entries: Vec<(u32, u32)> = Vec::new();
    let mut i: u32 = 0;
    while i < n
        invariant
            i <= n,
            r.wf(),
            r.data() == b,
            r.at() == start + 8 * i,
            start + 8 * n <= b.len(),
            entries@ == runs_at(b, start, i as int),
        decreases n - i,
    {
        let c: u32 = r.u32("sbgp sample_count")?;
        let g: u32 = r.u32("sbgp group_description_index")?;
        entries.push((c, g));
        i = i + 1;
        assert(entries@ =~= runs_at(b, start, i as int));
    }
    Ok(SampleGroup { grouping_type, grouping_type_parameter, entries, compact: false })
}

/// The value of bit `k` of a byte, the first being the most significant.
pub open spec fn bit_weight(k: int) -> u8 {
    if k == 0 {
        128
    } else if k == 1 {
        64
    } else if k == 2 {
        32
    } else if k == 3 {
        16
    } else if k == 4 {
        8
    } else if k == 5 {
        4
    } else if k == 6 {
        2
    } else {
        1
    }
}

/// Bit `i` of a byte string.
pub open spec fn bit_at(b: Seq<u8>, i: int) -> int {
    (b[i / 8] / bit_weight(i % 8) % 2) as int
}

/// The number that `n` bits from bit `pos` on write.
pub open spec fn bits_at(b: Seq<u8>, pos: int, n: int) -> int
    decreases n,
{
    if n <= 0 {
        0
    } else {
        2 * bits_at(b, pos, n - 1) + bit_at(b, pos + n - 1)
    }
}

proof fn lemma_bits_bound(b: Seq<u8>, pos: int, n: int)
    requires
        0 <= n,
    ensures
        0 <= bits_at(b, pos, n) < vstd::arithmetic::power2::pow2(n as nat),
    decreases n,
{
    vstd::arithmetic::power2::lemma2_to64();
    if n > 0 {
        lemma_bits_bound(b, pos, n - 1);
        vstd::arithmetic::power2::lemma_pow2_unfold(n as nat);
    }
}

/// MSB-first bit reader for the `csgp` packed fields.
struct BitCursor<'a> {
    data: &'a [u8],
    pos: u128,
}

fn weight(k: usize) -> (r: u8)
    requires
        k < 8,
    ensures
        r == bit_weight(k as int),
        r > 0,
{
    match k {
        0 => 128,
        1 => 64,
        2 => 32,
        3 => 16,
        4 => 8,
        5 => 4,
        6 => 2,
        _ => 1,
    }
}

impl<'a> BitCursor<'a> {
    fn read(&mut self, bits: u32) -> (res: Result<u32>)
        requires
            bits <= 32,
            old(self).pos <= 8 * old(self).data@.len(),
        ensures
            final(self).data == old(self).data,
            match res {
                Ok(v) => {
                    &&& old(self).pos + bits <= 8 * old(self).data@.len()
                    &&& final(self).pos == old(self).pos + bits
                    &&& v == bits_at(old(self).data@, old(self).pos as int, bits as int)
                },
                Err(e) => {
                    &&& e.kind() == ErrorKind::Invalid
                    &&& old(self).pos + bits > 8 * old(self).data@.len()
                },
            },
    {
        let b: &[u8] = self.data;
        let start: u128 = self.pos;
        assert(b.len() == b@.len());
        if bits as u128 > 8 * b.len() as u128 - start {
            return Err(HeifError::invalid("csgp: truncated"));
        }
        let mut v: u64 = 0;
        let mut i: u32 = 0;
        while i < bits
            invariant
                i <= bits <= 32,
                start + bits <= 8 * b@.len(),
                b@.len() <= usize::MAX,
                v == bits_at(b@, start as int, i as int),
                v <= 0xffff_ffff,
            decreases bits - i,
        {
            let at: u128 = start + i as u128;
            let w: u8 = weight((at % 8) as usize);
            let bit: u8 = b[(at / 8) as usize] / w % 2;
            proof {
                vstd::arithmetic::power2::lemma2_to64();
                lemma_bits_bound(b@, start as int, i + 1);
                crate::image::lemma_two_to_bound(32);
            }
            v = 2 * v + bit as u64;
            i = i + 1;
        }
        self.pos = start + bits as u128;
        Ok(v as u32)
    }
}

/// The field width a two-bit code stands for.
pub open spec fn field_bits(code: int) -> int {
    if code % 4 == 0 {
        4
    } else if code % 4 == 1 {
        8
    } else if code % 4 == 2 {
        16
    } else {
        32
    }
}

fn field_width(code: u32) -> (r: u32)
    ensures
        r == field_bits(code as int),
        4 <= r <= 32,
{
    match code % 4 {
        0 => 4,
        1 => 8,
        2 => 16,
        _ => 32,
    }
}

/// The layout of a `csgp` box.
pub struct PatternLayout {
    /// Bits of a `pattern_length`.
    pub pattern_bits: int,
    /// Bits of a `sample_count`.
    pub count_bits: int,
    /// Bits of an index.
    pub index_bits: int,
    /// Whether the top bit of an index marks a fragment-local description.
    pub local_msb: bool,
}

/// The layout that flags name.
pub open spec fn pattern_layout(flags: u32) -> PatternLayout {
    PatternLayout {
        pattern_bits: field_bits(flags as int / 16),
        count_bits: field_bits(flags as int / 4),
        index_bits: field_bits(flags as int),
        local_msb: flags / 128 % 2 == 1,
    }
}

impl PatternLayout {
    /// Pattern `i`: its length and the samples it covers.
    pub open spec fn pattern(self, b: Seq<u8>, i: int) -> (int, int) {
        let at = i * (self.pattern_bits + self.count_bits);
        (bits_at(b, at, self.pattern_bits), bits_at(b, at + self.pattern_bits, self.count_bits))
    }

    /// The sum of the lengths of the first `n` patterns.
    pub open spec fn lengths(self, b: Seq<u8>, n: int) -> int
        decreases n,
    {
        if n <= 0 {
            0
        } else {
            self.lengths(b, n - 1) + self.pattern(b, n - 1).0
        }
    }

    /// The index stored at bit `pos`; a fragment-local mark moves to bit 31.
    pub open spec fn index(self, b: Seq<u8>, pos: int) -> u32 {
        let v = bits_at(b, pos, self.index_bits);
        let half = vstd::arithmetic::power2::pow2((self.index_bits - 1) as nat) as int;
        (if self.local_msb && self.index_bits < 32 && v >= half {
            v - half + 0x8000_0000
        } else {
            v
        }) as u32
    }

    /// The `n` indices from bit `pos` on.
    pub open spec fn indices(self, b: Seq<u8>, pos: int, n: int) -> Seq<u32> {
        Seq::new(n as nat, |i: int| self.index(b, pos + i * self.index_bits))
    }
}

/// The runs with one more sample of index `idx`. A run of the largest count
/// goes on in a new one.
pub open spec fn with_sample(runs: Seq<(u32, u32)>, idx: u32) -> Seq<(u32, u32)> {
    if runs.len() > 0 && runs.last().1 == idx && runs.last().0 < u32::MAX {
        runs.drop_last().push(((runs.last().0 + 1) as u32, idx))
    } else {
        runs.push((1, idx))
    }
}

/// The runs with one more sample of each index.
pub open spec fn with_samples(runs: Seq<(u32, u32)>, idx: Seq<u32>) -> Seq<(u32, u32)>
    decreases idx.len(),
{
    if idx.len() == 0 {
        runs
    } else {
        with_sample(with_samples(runs, idx.drop_last()), idx.last())
    }
}

/// The runs with `left` more samples that follow a pattern cyclically.
pub open spec fn with_pattern(runs: Seq<(u32, u32)>, idx: Seq<u32>, left: int) -> Outcome<
    Seq<(u32, u32)>,
>
    decreases left,
{
    if left <= 0 || idx.len() == 0 {
        Ok(runs)
    } else {
        let n = if left < idx.len() {
            left
        } else {
            idx.len() as int
        };
        let next = with_samples(runs, idx.take(n));
        if next.len() > MAX_GROUP_ENTRIES {
            Err(ErrorKind::Exhausted)
        } else {
            with_pattern(next, idx, left - n)
        }
    }
}

/// The runs that the patterns from the `i`-th of `n` on give, the indices
/// starting at bit `pos`.
pub open spec fn expanded(
    l: PatternLayout,
    b: Seq<u8>,
    i: int,
    n: int,
    pos: int,
    runs: Seq<(u32, u32)>,
) -> Outcome<Seq<(u32, u32)>>
    decreases n - i,
{
    if i >= n {
        Ok(runs)
    } else {
        let (len, count) = l.pattern(b, i);
        match with_pattern(runs, l.indices(b, pos, len), count) {
            Err(e) => Err(e),
            Ok(next) => expanded(l, b, i + 1, n, pos + len * l.index_bits, next),
        }
    }
}

/// What the packed part of a `csgp` box expands to.
pub open spec fn patterns_of(l: PatternLayout, b: Seq<u8>, n: int) -> Outcome<Seq<(u32, u32)>> {
    let head = n * (l.pattern_bits + l.count_bits);
    if head > 8 * b.len() || n > MAX_GROUP_ENTRIES {
        Err(ErrorKind::Invalid)
    } else if l.lengths(b, n) * l.index_bits > 8 * b.len() - head || l.lengths(b, n)
        > MAX_GROUP_ENTRIES {
        Err(ErrorKind::Invalid)
    } else {
        expanded(l, b, 0, n, head, Seq::empty())
    }
}

/// What a `csgp` payload holds.
pub open spec fn csgp_of(p: Seq<u8>) -> Outcome<SampleGroupModel> {
    match full_box(p) {
        None => Err(ErrorKind::Invalid),
        Some((_, flags, b)) => {
            let has_parameter = flags / 64 % 2 == 1;
            let at: int = if has_parameter {
                8
            } else {
                4
            };
            if b.len() < at + 4 {
                Err(ErrorKind::Invalid)
            } else {
                match patterns_of(
                    pattern_layout(flags),
                    b.subrange(at + 4, b.len() as int),
                    be32(b, at) as int,
                ) {
                    Err(e) => Err(e),
                    Ok(entries) => Ok(
                        SampleGroupModel {
                            grouping_type: fourcc_at(b, 0),
                            grouping_type_parameter: if has_parameter {
                                Some(be32(b, 4))
                            } else {
                                None
                            },
                            entries,
                            compact: true,
                        },
                    ),
                }
            }
        },
    }
}

proof fn lemma_step(i: int, w: int)
    ensures
        (i + 1) * w == i * w + w,
{
    assert((i + 1) * w == i * w + w) by (nonlinear_arith);
}

proof fn lemma_steps(i: int, n: int, w: int)
    requires
        0 <= i <= n,
        0 <= w,
    ensures
        0 <= i * w <= n * w,
{
    assert(0 <= i * w <= n * w) by (nonlinear_arith)
        requires
            0 <= i <= n,
            0 <= w,
    ;
}

proof fn lemma_lengths(l: PatternLayout, b: Seq<u8>, i: int, n: int)
    requires
        0 <= i <= n,
        0 <= l.pattern_bits,
    ensures
        0 <= l.lengths(b, i) <= l.lengths(b, n),
    decreases n,
{
    if n > 0 {
        lemma_bits_bound(b, (n - 1) * (l.pattern_bits + l.count_bits), l.pattern_bits);
        if i < n {
            lemma_lengths(l, b, i, n - 1);
        } else {
            lemma_lengths(l, b, n - 1, n - 1);
        }
    }
}

/// Half the range of an index.
fn half_range(bits: u32) -> (r: u32)
    requires
        bits == 4 || bits == 8 || bits == 16 || bits == 32,
    ensures
        r == vstd::arithmetic::power2::pow2((bits - 1) as nat),
        r <= 0x8000_0000,
{
    proof {
        vstd::arithmetic::power2::lemma2_to64();
    }
    match bits {
        4 => 8,
        8 => 128,
        16 => 32768,
        _ => 0x8000_0000,
    }
}

/// One more sample of index `idx`.
fn add_sample(runs: &mut Vec<(u32, u32)>, idx: u32)
    ensures
        final(runs)@ == with_sample(old(runs)@, idx),
{
    let n: usize = runs.len();
    if n > 0 {
        let (c, g) = runs[n - 1];
        if g == idx && c < u32::MAX {
            let ghost before = runs@;
            runs.set(n - 1, (c + 1, g));
            assert(runs@ =~= before.drop_last().push(((c + 1) as u32, idx)));
            return;
        }
    }
    runs.push((1, idx));
}

/// `count` more samples that follow a pattern cyclically.
fn add_pattern(runs: &mut Vec<(u32, u32)>, idx: &Vec<u32>, count: u32) -> (res: Result<()>)
    ensures
        match res {
            Ok(_) => with_pattern(old(runs)@, idx@, count as int) == Ok::<
                Seq<(u32, u32)>,
                ErrorKind,
            >(final(runs)@),
            Err(e) => with_pattern(old(runs)@, idx@, count as int) == Err::<
                Seq<(u32, u32)>,
                ErrorKind,
            >(e.kind()),
        },
{
    let ghost goal = with_pattern(runs@, idx@, count as int);
    if idx.len() == 0 {
        return Ok(());
    }
    let mut left: u32 = count;
    while left > 0
        invariant
            idx@.len() > 0,
            goal == with_pattern(old(runs)@, idx@, count as int),
            goal == with_pattern(runs@, idx@, left as int),
        decreases left,
    {
        let n: usize = if (left as u64) < idx.len() as u64 {
            left as usize
        } else {
            idx.len()
        };
        let ghost before = runs@;
        assert(idx@.take(0) =~= Seq::empty());
        for k in 0..n
            invariant
                n <= idx@.len(),
                runs@ == with_samples(before, idx@.take(k as int)),
        {
            assert(idx@.take(k + 1).drop_last() =~= idx@.take(k as int));
            add_sample(runs, idx[k]);
        }
        if runs.len() > MAX_GROUP_ENTRIES {
            return Err(HeifError::exhausted("csgp expands past the run cap"));
        }
        left = left - n as u32;
    }
    Ok(())
}

/// The indices of one pattern.
fn read_indices(bits: &mut BitCursor, len: u32, index_bits: u32, local_msb: bool, Ghost(l): Ghost<PatternLayout>) -> (res: Result<Vec<u32>>)
    requires
        old(bits).pos + len * index_bits <= 8 * old(bits).data@.len(),
        index_bits == 4 || index_bits == 8 || index_bits == 16 || index_bits == 32,
        l.index_bits == index_bits,
        l.local_msb == local_msb,
    ensures
        final(bits).data == old(bits).data,
        res matches Ok(v) && {
            &&& v@ == l.indices(old(bits).data@, old(bits).pos as int, len as int)
            &&& final(bits).pos == old(bits).pos + len * index_bits
        },
{
    let half: u32 = half_range(index_bits);
    let ghost b = bits.data@;
    let ghost start = bits.pos as int;
    let mut out: Vec<u32> = Vec::new();
    let mut k: u32 = 0;
    while k < len
        invariant
            k <= len,
            bits.data == old(bits).data,
            b == bits.data@,
            start == old(bits).pos,
            start + len * index_bits <= 8 * b.len(),
            bits.pos == start + k * index_bits,
            index_bits == 4 || index_bits == 8 || index_bits == 16 || index_bits == 32,
            l.index_bits == index_bits,
            l.local_msb == local_msb,
            half == vstd::arithmetic::power2::pow2((index_bits - 1) as nat),
            out@ == l.indices(b, start, k as int),
        decreases len - k,
    {
        proof {
            lemma_step(k as int, index_bits as int);
            lemma_steps(k + 1, len as int, index_bits as int);
            lemma_steps(k as int, len as int, index_bits as int);
            lemma_bits_bound(b, bits.pos as int, index_bits as int);
            vstd::arithmetic::power2::lemma2_to64();
        }
        let v: u32 = bits.read(index_bits)?;
        let idx: u32 = if local_msb && index_bits < 32 && v >= half {
            v - half + 0x8000_0000
        } else {
            v
        };
        out.push(idx);
        k = k + 1;
        assert(out@ =~= l.indices(b, start, k as int));
    }
    Ok(out)
}

/// Expand the packed part of a `csgp` box.
fn parse_patterns(rest: &[u8], flags: u32, n: u32) -> (res: Result<Vec<(u32, u32)>>)
    ensures
        view_outcome(res) == patterns_of(pattern_layout(flags), rest@, n as int),
{
    let ghost l = pattern_layout(flags);
    let ghost b = rest@;
    let local_msb: bool = flags / 128 % 2 == 1;
    let pattern_bits: u32 = field_width(flags / 16);
    let count_bits: u32 = field_width(flags / 4);
    let index_bits: u32 = field_width(flags);
    let w: u32 = pattern_bits + count_bits;
    assert(rest.len() == rest@.len());
    let size: u128 = 8 * rest.len() as u128;
    proof {
        lemma_steps(n as int, 0xffff_ffff, w as int);
        lemma_steps(w as int, 64, 0xffff_ffff);
        assert(n * w <= 0xffff_ffff * 64) by (nonlinear_arith)
            requires
                0 <= n <= 0xffff_ffff,
                0 <= w <= 64,
        ;
    }
    let head: u128 = n as u128 * w as u128;
    if head > size || n as usize > MAX_GROUP_ENTRIES {
        return Err(HeifError::invalid("csgp pattern_count exceeds the box"));
    }
    let mut bits: BitCursor = BitCursor { data: rest, pos: 0 };
    let mut patterns: Vec<(u32, u32)> = Vec::new();
    let mut total: u64 = 0;
    let mut i: u32 = 0;
    while i < n
        invariant
            i <= n,
            n <= MAX_GROUP_ENTRIES,
            l == pattern_layout(flags),
            b == rest@,
            bits.data@ == b,
            l.pattern_bits == pattern_bits,
            l.count_bits == count_bits,
            pattern_bits <= 32,
            count_bits <= 32,
            w == pattern_bits + count_bits,
            head == n * w,
            head <= 8 * b.len(),
            bits.pos == i * w,
            total == l.lengths(b, i as int),
            total <= i * 0xffff_ffff,
            patterns@.len() == i,
            forall|k: int|
                0 <= k < i ==> l.pattern(b, k) == ((#[trigger] patterns@[k]).0 as int, patterns@[k].1 as int),
            patterns_of(l, b, n as int) == patterns_of(pattern_layout(flags), rest@, n as int),
        decreases n - i,
    {
        proof {
            lemma_step(i as int, w as int);
            lemma_steps(i + 1, n as int, w as int);
            lemma_steps(i as int, n as int, w as int);
        }
        let len: u32 = bits.read(pattern_bits)?;
        let count: u32 = bits.read(count_bits)?;
        total = total + len as u64;
        patterns.push((len, count));
        i = i + 1;
    }
    proof {
        assert(0 <= total * index_bits <= 0x10_0000 * 0xffff_ffff * 32) by (nonlinear_arith)
            requires
                0 <= total <= 0x10_0000 * 0xffff_ffff,
                0 <= index_bits <= 32,
        ;
    }
    if total as u128 * index_bits as u128 > size - head || total > MAX_GROUP_ENTRIES as u64 {
        return Err(HeifError::invalid("csgp pattern indices exceed the box"));
    }
    let mut entries: Vec<(u32, u32)> = Vec::new();
    let ghost goal = expanded(l, b, 0, n as int, head as int, Seq::empty());
    assert(entries@ =~= Seq::empty());
    let mut i: u32 = 0;
    while i < n
        invariant
            i <= n,
            l == pattern_layout(flags),
            b == rest@,
            bits.data@ == b,
            l.pattern_bits == pattern_bits,
            l.index_bits == index_bits,
            l.local_msb == local_msb,
            index_bits == 4 || index_bits == 8 || index_bits == 16 || index_bits == 32,
            total == l.lengths(b, n as int),
            head + total * index_bits <= 8 * b.len(),
            bits.pos == head + l.lengths(b, i as int) * index_bits,
            patterns@.len() == n,
            forall|k: int|
                0 <= k < n ==> l.pattern(b, k) == ((#[trigger] patterns@[k]).0 as int, patterns@[k].1 as int),
            goal == patterns_of(pattern_layout(flags), rest@, n as int),
            goal == expanded(l, b, i as int, n as int, bits.pos as int, entries@),
        decreases n - i,
    {
        let (len, count) = patterns[i as usize];
        let ghost done = l.lengths(b, i as int);
        proof {
            assert(l.pattern(b, i as int) == (patterns@[i as int].0 as int, patterns@[i as int].1 as int));
            lemma_lengths(l, b, i + 1, n as int);
            lemma_lengths(l, b, i as int, n as int);
            lemma_steps(done + len, total as int, index_bits as int);
            assert((done + len) * index_bits == done * index_bits + len * index_bits) by (nonlinear_arith);
        }
        let indices: Vec<u32> = read_indices(&mut bits, len, index_bits, local_msb, Ghost(l))?;
        add_pattern(&mut entries, &indices, count)?;
        i = i + 1;
    }
    Ok(entries)
}

/// `csgp` (§8.9.5): the pattern table is expanded to `sbgp`-shaped
/// runs (one run per pattern element, repeated `sample_count /
/// pattern_length` times, the remainder taken from the pattern head).
pub fn parse_csgp(p: &[u8]) -> (res: Result<SampleGroup>)
    ensures
        view_outcome(res) == csgp_of(p@),
{
    let (_v, flags, body) = parse_full_box(p)?;
    let mut r: Reader = Reader::new(body);
    let grouping_type: FourCc = r.fourcc("csgp grouping_type")?;
    let grouping_type_parameter: Option<u32> = if flags / 64 % 2 == 1 {
        let q: u32 = r.u32("csgp grouping_type_parameter")?;
        Some(q)
    } else {
        None
    };
    let pattern_count: u32 = r.u32("csgp pattern_count")?;
    let entries: Vec<(u32, u32)> = parse_patterns(r.rest(), flags, pattern_count)?;
    Ok(SampleGroup { grouping_type, grouping_type_parameter, entries, compact: true })
}

/// The `n` description entries at `p`, each of `default_length` bytes or with
/// its own length when that is 0, after those in `acc`.
pub open spec fn descriptions_at(
    b: Seq<u8>,
    p: int,
    n: int,
    default_length: u32,
    acc: Seq<Seq<u8>>,
) -> Outcome<Seq<Seq<u8>>>
    decreases n,
{
    if n <= 0 {
        Ok(acc)
    } else if default_length == 0 && p + 4 > b.len() {
        Err(ErrorKind::Invalid)
    } else {
        let (q, len) = if default_length == 0 {
            (p + 4, be32(b, p) as int)
        } else {
            (p, default_length as int)
        };
        if q + len > b.len() {
            Err(ErrorKind::Invalid)
        } else {
            descriptions_at(b, q + len, n - 1, default_length, acc.push(b.subrange(q, q + len)))
        }
    }
}

/// What an `sgpd` payload holds.
pub open spec fn sgpd_of(p: Seq<u8>) -> Outcome<SampleGroupDescriptionModel> {
    match full_box(p) {
        None => Err(ErrorKind::Invalid),
        Some((v, _, b)) => {
            let at: int = if v == 0 {
                4
            } else if v == 1 {
                8
            } else {
                12
            };
            if b.len() < at + 4 {
                Err(ErrorKind::Invalid)
            } else {
                let n = be32(b, at) as int;
                let default_length = if v >= 1 {
                    be32(b, 4)
                } else {
                    0
                };
                // Without lengths, the rest of the box is kept as one entry.
                let entries = if v >= 1 {
                    descriptions_at(b, at + 4, n, default_length, Seq::empty())
                } else if n == 0 {
                    Ok(Seq::empty())
                } else {
                    Ok(seq![b.subrange(at + 4, b.len() as int)])
                };
                if n > b.len() - at - 4 || n > MAX_GROUP_ENTRIES {
                    Err(ErrorKind::Invalid)
                } else {
                    match entries {
                        Err(e) => Err(e),
                        Ok(entries) => Ok(
                            SampleGroupDescriptionModel {
                                grouping_type: fourcc_at(b, 0),
                                version: v,
                                default_length,
                                default_group_description_index: if v >= 2 {
                                    be32(b, 8)
                                } else {
                                    0
                                },
                                entries,
                            },
                        ),
                    }
                }
            }
        },
    }
}

/// `sgpd` (§8.9.3.2).
pub fn parse_sgpd(p: &[u8]) -> (res: Result<SampleGroupDescription>)
    ensures
        view_outcome(res) == sgpd_of(p@),
{
    let (v, _f, body) = parse_full_box(p)?;
    let ghost b = body@;
    let mut r: Reader = Reader::new(body);
    let grouping_type: FourCc = r.fourcc("sgpd grouping_type")?;
    let default_length: u32 = if v >= 1 {
        r.u32("sgpd default_length")?
    } else {
        0
    };
    let default_group_description_index: u32 = if v >= 2 {
        r.u32("sgpd default_group_description_index")?
    } else {
        0
    };
    let n: u32 = r.u32("sgpd entry_count")?;
    if n as usize > r.remaining() || n as usize > MAX_GROUP_ENTRIES {
        return Err(HeifError::invalid("sgpd entry_count exceeds the box"));
    }
    let mut entries: Vec<Vec<u8>> = Vec::new();
    proof {
        assert(lists(entries@) =~= Seq::empty());
    }
    if v == 0 {
        // v0 entries have no length field: the layout is per
        // grouping type; the rest of the box is kept as one entry.
        if n > 0 {
            entries.push(copy_of(r.rest()));
            proof {
                assert(lists(entries@) =~= seq![b.subrange(r.at(), b.len() as int)]);
            }
        }
    } else {
        let ghost start = r.at();
        let ghost goal = descriptions_at(b, start, n as int, default_length, Seq::empty());
        let mut i: u32 = 0;
        while i < n
            invariant
                i <= n,
                r.wf(),
                r.data() == b,
                v >= 1,
                full_box(p@) is Some,
                full_box(p@)->Some_0.0 == v,
                full_box(p@)->Some_0.2 == b,
                start == (if v == 1 {
                    12int
                } else {
                    16
                }),
                b.len() >= start,
                n == be32(b, start - 4),
                n <= b.len() - start,
                n <= MAX_GROUP_ENTRIES,
                default_length == be32(b, 4),
                goal == descriptions_at(b, start, n as int, default_length, Seq::empty()),
                goal == descriptions_at(b, r.at(), n - i, default_length, lists(entries@)),
            decreases n - i,
        {
            let len: usize = if default_length == 0 {
                let own: u32 = r.u32("sgpd description_length")?;
                own as usize
            } else {
                default_length as usize
            };
            let ghost before = lists(entries@);
            let e: Vec<u8> = copy_of(r.bytes(len, "sgpd entry")?);
            entries.push(e);
            proof {
                assert(lists(entries@) =~= before.push(e@));
            }
            i = i + 1;
        }
    }
    Ok(
        SampleGroupDescription {
            grouping_type,
            version: v,
            default_length,
            default_group_description_index,
            entries,
        },
    )
}

} // verus!
