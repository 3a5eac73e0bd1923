//! The coded colour of an overlay canvas (ISO/IEC 23008-12 §6.6.2.2, H.273).
//!
//! The conversion is carried out in double precision ([`crate::double`]), step by
//! step, and its results are rounded to the nearest coded value. [`law_fill_nearest`]
//! says how close that is to the exact values.
use crate::double::{
    power,     lemma_near_half, lemma_near_within, lemma_over_within, lemma_plus_within, lemma_times_within, near, Double,
    DoubleModel, MOST,
};
use crate::image::two_to;
use crate::props::{Colr, ColrModel};
use vstd::arithmetic::power2::pow2;
use vstd::prelude::*;

verus! {

/// `n / d` rounded to the nearest integer (halves up) and held to `0..=max`.
pub open spec fn quantised(n: int, d: int, max: int) -> int {
    if n <= 0 {
        0
    } else {
        let q = (2 * n + d) / (2 * d);
        if q < max {
            q
        } else {
            max
        }
    }
}

/// `n / d` rounded to the nearest integer (halves up) and held to `0..=max`.
pub(crate) fn quantise(n: i128, d: i128, max: i128) -> (r: i128)
    requires
        0 < d <= 0x1_0000_0000_0000_0000_0000_0000,
        -0x1_0000_0000_0000_0000_0000_0000 <= n <= 0x1_0000_0000_0000_0000_0000_0000,
        0 <= max,
    ensures
        r == quantised(n as int, d as int, max as int),
        0 <= r <= max,
{
    if n <= 0 {
        return 0;
    }
    let q: i128 = ((2 * n + d) as u128 / (2 * d) as u128) as i128;
    proof {
        assert(0 <= (2 * n + d) as int / (2 * d) as int) by (nonlinear_arith)
            requires
                n > 0,
                d > 0,
        ;
        assert((2 * n + d) as int / (2 * d) as int <= 2 * n + d) by (nonlinear_arith)
            requires
                n > 0,
                d > 0,
        ;
    }
    if q < max {
        q
    } else {
        max
    }
}

/// The luma weights of red and blue a fill conversion uses, in ten-thousandths
/// (H.273 Table 4; those of BT.601 for codes without weights).
pub open spec fn fill_weights(matrix: u16) -> (int, int) {
    if matrix == 1 {
        (2126, 722)
    } else if matrix == 4 {
        (3000, 1100)
    } else if matrix == 7 {
        (2120, 870)
    } else if matrix == 9 || matrix == 10 {
        (2627, 593)
    } else {
        (2990, 1140)
    }
}

/// The matrix and range of a `colr`; the MIAF §7.3.6.4 default without `nclx`.
pub open spec fn matrix_of(colr: Option<ColrModel>) -> (u16, bool) {
    match colr {
        Some(ColrModel::Nclx { matrix, full_range, .. }) => (matrix, full_range),
        _ => (6, true),
    }
}

/// The model of an optional `colr`.
pub open spec fn option_colr(colr: Option<&Colr>) -> Option<ColrModel> {
    match colr {
        Some(c) => Some(c@),
        None => None,
    }
}

/// The matrix and range of a `colr`.
pub(crate) fn colr_matrix(colr: Option<&Colr>) -> (r: (u16, bool))
    ensures
        r == matrix_of(option_colr(colr)),
{
    match colr {
        Some(Colr::Nclx { matrix, full_range, .. }) => (*matrix, *full_range),
        _ => (6, true),
    }
}

/// A colour channel, between 0 and 1.
pub open spec fn channel(c: u16) -> DoubleModel {
    near(c as int, 65535)
}

/// A luma weight.
pub open spec fn weight(k: int) -> DoubleModel {
    near(k, 10000)
}

/// One.
pub open spec fn one() -> DoubleModel {
    DoubleModel::whole(1)
}

/// The luma of a colour: `Kr * R + Kg * G + Kb * B`, where `Kg` is what the other
/// weights leave.
pub open spec fn luma_signal(fill: [u16; 3], kr: int, kb: int) -> DoubleModel {
    let kg = one().minus(weight(kr)).minus(weight(kb));
    weight(kr).times(channel(fill[0])).plus(kg.times(channel(fill[1]))).plus(
        weight(kb).times(channel(fill[2])),
    )
}

/// A chroma difference: `(c - y) / (2 * (1 - k))`.
pub open spec fn chroma_signal(c: u16, y: DoubleModel, k: int) -> DoubleModel {
    channel(c).minus(y).over(DoubleModel::whole(2).times(one().minus(weight(k))))
}

/// A value rounded to the nearest code.
pub open spec fn code(x: DoubleModel, max: int) -> int {
    quantised(x.num, x.unit as int, max)
}

/// The code of a value between 0 and 1 at full range.
pub open spec fn full_code(x: DoubleModel, max: int) -> int {
    code(x.times(DoubleModel::whole(max)), max)
}

/// The code of luma: 219 steps from 16 on at limited range.
pub open spec fn luma_code(y: DoubleModel, depth: nat, full_range: bool) -> int {
    let max = pow2(depth) - 1;
    if full_range {
        full_code(y, max)
    } else {
        code(
            DoubleModel::whole(219).times(y).plus(DoubleModel::whole(16)).times(
                DoubleModel::whole(pow2((depth - 8) as nat) as int),
            ),
            max,
        )
    }
}

/// The code of a chroma difference: around the middle value at full range, 224 steps
/// around 128 at limited range.
pub open spec fn chroma_code(c: DoubleModel, depth: nat, full_range: bool) -> int {
    let max = pow2(depth) - 1;
    if full_range {
        code(
            c.times(DoubleModel::whole(max)).plus(
                DoubleModel::whole(pow2((depth - 1) as nat) as int),
            ),
            max,
        )
    } else {
        code(
            DoubleModel::whole(224).times(c).plus(DoubleModel::whole(128)).times(
                DoubleModel::whole(pow2((depth - 8) as nat) as int),
            ),
            max,
        )
    }
}

/// The three coded values of a fill colour.
pub open spec fn fill_values(fill: [u16; 3], depth: nat, matrix: u16, full_range: bool) -> (
    int,
    int,
    int,
) {
    let max = pow2(depth) - 1;
    if matrix == 0 {
        (
            full_code(channel(fill[1]), max),
            full_code(channel(fill[2]), max),
            full_code(channel(fill[0]), max),
        )
    } else {
        let (kr, kb) = fill_weights(matrix);
        let y = luma_signal(fill, kr, kb);
        (
            luma_code(y, depth, full_range),
            chroma_code(chroma_signal(fill[2], y, kb), depth, full_range),
            chroma_code(chroma_signal(fill[0], y, kr), depth, full_range),
        )
    }
}

/// A coded value as a 16-bit sample.
pub open spec fn to_sample(v: int) -> u16 {
    (if v < 65535 {
        v
    } else {
        65535
    }) as u16
}

/// A fill value is within the range of a sample.
pub(crate) proof fn lemma_fill_bound(fill: [u16; 3], depth: nat, matrix: u16, full_range: bool)
    requires
        depth <= 16,
    ensures
        ({
            let v = fill_values(fill, depth, matrix, full_range);
            let max = pow2(depth) - 1;
            &&& 0 <= v.0 <= max
            &&& 0 <= v.1 <= max
            &&& 0 <= v.2 <= max
            &&& to_sample(v.0) == v.0
            &&& to_sample(v.1) == v.1
            &&& to_sample(v.2) == v.2
        }),
{
    vstd::arithmetic::power2::lemma2_to64();
    crate::image::lemma_two_to_bound(16);
    let max = pow2(depth) - 1;
    assert(0 <= max <= 65535);
    let m = DoubleModel::whole(max);
    if matrix == 0 {
        lemma_code(channel(fill[0]).exact_product(m), max);
        lemma_code(channel(fill[1]).exact_product(m), max);
        lemma_code(channel(fill[2]).exact_product(m), max);
    } else {
        let (kr, kb) = fill_weights(matrix);
        let y = luma_signal(fill, kr, kb);
        let (cb, cr) = (chroma_signal(fill[2], y, kb), chroma_signal(fill[0], y, kr));
        if full_range {
            let mid = DoubleModel::whole(pow2((depth - 1) as nat) as int);
            lemma_code(y.exact_product(m), max);
            lemma_code(cb.times(m).exact_sum(mid), max);
            lemma_code(cr.times(m).exact_sum(mid), max);
        } else {
            let sh = DoubleModel::whole(pow2((depth - 8) as nat) as int);
            let (a, b) = (DoubleModel::whole(16), DoubleModel::whole(128));
            let k = DoubleModel::whole(224);
            lemma_code(DoubleModel::whole(219).times(y).plus(a).exact_product(sh), max);
            lemma_code(k.times(cb).plus(b).exact_product(sh), max);
            lemma_code(k.times(cr).plus(b).exact_product(sh), max);
        }
    }
}

/// A code is within its range.
proof fn lemma_code(t: DoubleModel, max: int)
    requires
        0 <= max,
    ensures
        0 <= code(t.rounded(), max) <= max,
{
    let x = t.rounded();
    if t.num > 0 {
        crate::double::lemma_unit_even(t.num as nat, t.unit);
    } else if t.num < 0 {
        crate::double::lemma_unit_even((-t.num) as nat, t.unit);
    }
    if x.num > 0 {
        assert(0 <= (2 * x.num + x.unit) / (2 * x.unit as int)) by (nonlinear_arith)
            requires
                x.num > 0,
                x.unit > 0,
        ;
    }
}

fn sample_of(v: i128) -> (r: u16)
    requires
        0 <= v,
    ensures
        r == to_sample(v as int),
{
    if v < 65535 {
        v as u16
    } else {
        65535
    }
}

fn weights(matrix: u16) -> (r: (u16, u16))
    ensures
        r.0 == fill_weights(matrix).0,
        r.1 == fill_weights(matrix).1,
        1 <= r.0 <= 3000,
        1 <= r.1 <= 3000,
{
    match matrix {
        1 => (2126, 722),
        4 => (3000, 1100),
        7 => (2120, 870),
        9 | 10 => (2627, 593),
        _ => (2990, 1140),
    }
}

pub(crate) proof fn lemma_product(a: int, b: int, x: int, y: int)
    requires
        -x <= a <= x,
        -y <= b <= y,
    ensures
        -(x * y) <= a * b <= x * y,
{
    assert(-(x * y) <= a * b <= x * y) by (nonlinear_arith)
        requires
            -x <= a <= x,
            -y <= b <= y,
    ;
}

/// What the values of a conversion are within.
pub(crate) proof fn lemma_weight(k: int)
    requires
        1 <= k <= 3000,
    ensures
        ({
            let d = DoubleModel::whole(2).times(one().minus(weight(k)));
            &&& weight(k).within(1)
            &&& 1 <= weight(k).unit
            &&& 0 <= weight(k).num
            &&& one().minus(weight(k)).within(1)
            &&& 1 <= one().minus(weight(k)).unit
            &&& 1 <= d.unit <= d.num
            &&& crate::double::LEAST <= d.num
        }),
{
    let w = weight(k);
    lemma_near_within(k, 10000, 1);
    lemma_near_half(k, 10000);
    let t = one().exact_sum(w.negated());
    assert(t.num == w.unit - w.num && t.unit == w.unit) by (nonlinear_arith)
        requires
            t.num == 1 * w.unit + (-w.num) * 1,
            t.unit == 1 * w.unit,
    ;
    lemma_near_within(t.num, t.unit, 1);
    assert(t.num < t.unit * crate::double::LEAST) by (nonlinear_arith)
        requires
            t.num <= t.unit,
            1 <= t.unit,
            crate::double::LEAST == 0x10_0000_0000_0000,
    ;
    lemma_near_half(t.num, t.unit);
    let g = one().minus(w);
    let x = DoubleModel::whole(2).exact_product(g);
    assert(x.num == 2 * g.num && x.unit == g.unit) by (nonlinear_arith)
        requires
            x.num == 2 * g.num,
            x.unit == 1 * g.unit,
    ;
    lemma_near_least(x.num, x.unit);
    assert(2 * x.unit < 2 * (x.unit * crate::double::LEAST)) by (nonlinear_arith)
        requires
            1 <= x.unit,
            crate::double::LEAST == 0x10_0000_0000_0000,
    ;
    crate::double::lemma_double(x.num as nat, x.unit);
}

/// The double nearest to one or more is one or more.
proof fn lemma_near_least(n: int, d: nat)
    requires
        1 <= d <= n,
    ensures
        near(n, d).unit <= near(n, d).num,
        1 <= near(n, d).unit,
{
    crate::double::lemma_unit_even(n as nat, d);
    let u = crate::double::unit(n as nat, d);
    assert(0 <= u * d <= n * u) by (nonlinear_arith)
        requires
            1 <= d <= n,
    ;
    crate::double::lemma_not_below(n * u, d as int, u as int);
}


/// A fraction between 0 and 1.
fn fraction(n: u16, d: u16) -> (r: Double)
    requires
        2 <= d,
        n <= d,
    ensures
        r@ == near(n as int, d as nat),
        -MOST <= r.m <= MOST,
        r.e <= 108,
{
    let (a, b): (Double, Double) = (Double::whole(n as u64), Double::whole(d as u64));
    proof {
        let t = a@.exact_quotient(b@);
        assert(t.num == n && t.unit == d) by (nonlinear_arith)
            requires
                t.num == n * 1,
                t.unit == 1 * d,
        ;
        assert(-(crate::double::LEAST * d) <= n <= crate::double::LEAST * d) by (nonlinear_arith)
            requires
                0 <= n <= d,
                crate::double::LEAST == 0x10_0000_0000_0000,
        ;
    }
    a.over(b)
}

/// An integer is within itself.
proof fn lemma_whole(n: int)
    requires
        0 <= n,
    ensures
        DoubleModel::whole(n).within(n),
        1 <= DoubleModel::whole(n).unit,
{
    assert(n * 1 == n) by (nonlinear_arith);
}

/// A value rounded to the nearest code.
fn to_code(x: Double, max: u64) -> (r: i128)
    requires
        -MOST <= x.m <= MOST,
    ensures
        r == code(x@, max as int),
        0 <= r,
{
    if x.m <= 0 {
        return 0;
    }
    if x.e > 90 {
        proof {
            let (n, d) = (x.m as int, pow2(x.e as nat) as int);
            vstd::arithmetic::power2::lemma2_to64();
            vstd::arithmetic::power2::lemma2_to64_rest();
            vstd::arithmetic::power2::lemma_pow2_strictly_increases(63, x.e as nat);
            assert((2 * n + d) / (2 * d) == 0) by (nonlinear_arith)
                requires
                    0 < n,
                    2 * n < d,
            ;
        }
        return 0;
    }
    proof {
        vstd::arithmetic::power2::lemma2_to64_rest();
        vstd::arithmetic::power2::lemma_pow2_adds(45, 45);
        if x.e < 90 {
            vstd::arithmetic::power2::lemma_pow2_strictly_increases(x.e as nat, 90);
        }
    }
    quantise(x.m, power(x.e) as i128, max as i128)
}

/// The luma of a colour.
#[verifier::rlimit(30)]
fn to_luma(fill: [u16; 3], kr: u16, kb: u16) -> (r: Double)
    requires
        1 <= kr <= 3000,
        1 <= kb <= 3000,
    ensures
        r@ == luma_signal(fill, kr as int, kb as int),
        r@.within(4),
        1 <= r@.unit,
        -MOST <= r.m <= MOST,
        r.e <= 5000,
{
    let (r, g, b): (Double, Double, Double) = (
        fraction(fill[0], 65535),
        fraction(fill[1], 65535),
        fraction(fill[2], 65535),
    );
    let (wr, wb): (Double, Double) = (fraction(kr, 10000), fraction(kb, 10000));
    let unity: Double = Double::whole(1);
    proof {
        lemma_near_within(fill[0] as int, 65535, 1);
        lemma_near_within(fill[1] as int, 65535, 1);
        lemma_near_within(fill[2] as int, 65535, 1);
        lemma_weight(kr as int);
        lemma_weight(kb as int);
        lemma_whole(1);
        lemma_plus_within(unity@, wr@.negated(), 1, 1);
    }
    let rest: Double = unity.minus(wr);
    proof {
        lemma_plus_within(rest@, wb@.negated(), 1, 1);
    }
    let wg: Double = rest.minus(wb);
    proof {
        lemma_times_within(wr@, r@, 1, 1);
        lemma_times_within(wg@, g@, 2, 1);
        lemma_times_within(wb@, b@, 1, 1);
    }
    let (x, y, z): (Double, Double, Double) = (wr.times(r), wg.times(g), wb.times(b));
    proof {
        lemma_plus_within(x@, y@, 1, 2);
    }
    let xy: Double = x.plus(y);
    proof {
        lemma_plus_within(xy@, z@, 3, 1);
    }
    xy.plus(z)
}

/// A chroma difference.
fn to_chroma(c: u16, y: Double, k: u16) -> (r: Double)
    requires
        1 <= k <= 3000,
        y@.within(4),
        1 <= y@.unit,
        -MOST <= y.m <= MOST,
        y.e <= 5000,
    ensures
        r@ == chroma_signal(c, y@, k as int),
        r@.within(5),
        1 <= r@.unit,
        -MOST <= r.m <= MOST,
        r.e <= 6000,
{
    let v: Double = fraction(c, 65535);
    let w: Double = fraction(k, 10000);
    let (unity, two): (Double, Double) = (Double::whole(1), Double::whole(2));
    proof {
        lemma_near_within(c as int, 65535, 1);
        lemma_weight(k as int);
        lemma_whole(1);
        lemma_whole(2);
        lemma_plus_within(unity@, w@.negated(), 1, 1);
        lemma_times_within(two@, unity@.minus(w@), 2, 1);
        lemma_plus_within(v@, y@.negated(), 1, 4);
    }
    let d: Double = two.times(unity.minus(w));
    let n: Double = v.minus(y);
    proof {
        lemma_over_within(n@, d@, 5);
    }
    n.over(d)
}

/// The code of luma.
fn luma_to_code(y: Double, depth: u8, full_range: bool) -> (r: i128)
    requires
        8 <= depth <= 31,
        y@.within(4),
        1 <= y@.unit,
        -MOST <= y.m <= MOST,
        y.e <= 6000,
    ensures
        r == luma_code(y@, depth as nat, full_range),
        0 <= r,
{
    let max: u64 = two_to(depth) - 1;
    if full_range {
        let m: Double = Double::whole(max);
        proof {
            lemma_whole(max as int);
            lemma_times_within(y@, m@, 4, max as int);
        }
        to_code(y.times(m), max)
    } else {
        let sh: u64 = two_to(depth - 8);
        let (a, b, s): (Double, Double, Double) = (
            Double::whole(219),
            Double::whole(16),
            Double::whole(sh),
        );
        proof {
            lemma_whole(219);
            lemma_whole(16);
            lemma_whole(sh as int);
            lemma_times_within(a@, y@, 219, 4);
        }
        let t: Double = a.times(y);
        proof {
            lemma_plus_within(t@, b@, 876, 16);
        }
        let u: Double = t.plus(b);
        proof {
            lemma_times_within(u@, s@, 892, sh as int);
        }
        to_code(u.times(s), max)
    }
}

/// The code of a chroma difference.
fn chroma_to_code(c: Double, depth: u8, full_range: bool) -> (r: i128)
    requires
        8 <= depth <= 31,
        c@.within(5),
        1 <= c@.unit,
        -MOST <= c.m <= MOST,
        c.e <= 6000,
    ensures
        r == chroma_code(c@, depth as nat, full_range),
        0 <= r,
{
    let max: u64 = two_to(depth) - 1;
    if full_range {
        let mid: u64 = two_to(depth - 1);
        let (m, b): (Double, Double) = (Double::whole(max), Double::whole(mid));
        proof {
            lemma_whole(max as int);
            lemma_whole(mid as int);
            lemma_times_within(c@, m@, 5, max as int);
        }
        let t: Double = c.times(m);
        proof {
            lemma_plus_within(t@, b@, 5 * max, mid as int);
        }
        to_code(t.plus(b), max)
    } else {
        let sh: u64 = two_to(depth - 8);
        let (a, b, s): (Double, Double, Double) = (
            Double::whole(224),
            Double::whole(128),
            Double::whole(sh),
        );
        proof {
            lemma_whole(224);
            lemma_whole(128);
            lemma_whole(sh as int);
            lemma_times_within(a@, c@, 224, 5);
        }
        let t: Double = a.times(c);
        proof {
            lemma_plus_within(t@, b@, 1120, 128);
        }
        let u: Double = t.plus(b);
        proof {
            lemma_times_within(u@, s@, 1248, sh as int);
        }
        to_code(u.times(s), max)
    }
}

/// The code of a colour channel at full range.
fn channel_to_code(c: u16, depth: u8) -> (r: i128)
    requires
        depth <= 31,
    ensures
        r == full_code(channel(c), pow2(depth as nat) - 1),
        0 <= r,
{
    let max: u64 = two_to(depth) - 1;
    let (v, m): (Double, Double) = (fraction(c, 65535), Double::whole(max));
    proof {
        lemma_near_within(c as int, 65535, 1);
        lemma_whole(max as int);
        lemma_times_within(v@, m@, 1, max as int);
    }
    to_code(v.times(m), max)
}

/// Convert an sRGB `canvas_fill_value` (16-bit R, G, B) to the coded
/// YCbCr triple of an output described by `colr` (H.273 matrices; the
/// MIAF §7.3.6.4 default when `None`), each value rounded to the nearest.
pub fn fill_to_ycbcr(fill: [u16; 3], depth: u8, colr: Option<&Colr>) -> (r: [u16; 3])
    requires
        depth <= 31,
        matrix_of(option_colr(colr)).0 != 0 ==> depth >= 8,
    ensures
        ({
            let (matrix, full_range) = matrix_of(option_colr(colr));
            let v = fill_values(fill, depth as nat, matrix, full_range);
            r == [to_sample(v.0), to_sample(v.1), to_sample(v.2)]
        }),
{
    let (matrix, full_range) = colr_matrix(colr);
    if matrix == 0 {
        // Identity (GBR): Y = G, Cb = B, Cr = R (equations 41–43).
        return [
            sample_of(channel_to_code(fill[1], depth)),
            sample_of(channel_to_code(fill[2], depth)),
            sample_of(channel_to_code(fill[0], depth)),
        ];
    }
    let (kr, kb) = weights(matrix);
    let y: Double = to_luma(fill, kr, kb);
    [
        sample_of(luma_to_code(y, depth, full_range)),
        sample_of(chroma_to_code(to_chroma(fill[2], y, kb), depth, full_range)),
        sample_of(chroma_to_code(to_chroma(fill[0], y, kr), depth, full_range)),
    ]
}

} // verus!
