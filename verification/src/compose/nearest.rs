//! How close the coded values of a fill colour are to the exact ones.
use crate::compose::fill::{
    channel, chroma_code, chroma_signal, code, fill_values, fill_weights, full_code, luma_code, luma_signal, one,
    quantised, weight,
};
use crate::double::close::{
    lemma_negated_close, lemma_product_close, lemma_quotient_close, lemma_rounded_close, lemma_sum_close,
};
use crate::double::precision::{
    lemma_mul_int, lemma_mul_one, lemma_mul_order, lemma_mul_positive, lemma_mul_sum,
    lemma_near_error, lemma_ratio, lemma_ratio_is, off, prod, ratio,
};
use crate::double::{near, DoubleModel};
use vstd::arithmetic::power2::pow2;
use vstd::prelude::*;

verus! {

/// A fraction, as a number.
pub open spec fn share(n: int, d: int) -> real {
    ratio(n as real, d as real)
}

/// The luma of a colour (H.273 equation 38), exactly.
pub open spec fn exact_luma(fill: [u16; 3], kr: int, kb: int) -> real {
    let (r, b) = (share(kr, 10000), share(kb, 10000));
    prod(r, share(fill[0] as int, 65535)) + prod(1 as real - r - b, share(fill[1] as int, 65535))
        + prod(b, share(fill[2] as int, 65535))
}

/// A chroma difference (H.273 equations 39 and 40), exactly.
pub open spec fn exact_chroma(c: u16, y: real, k: int) -> real {
    ratio(share(c as int, 65535) - y, prod(2 as real, 1 as real - share(k, 10000)))
}

/// The code of luma before rounding.
pub open spec fn exact_luma_code(y: real, depth: nat, full_range: bool) -> real {
    if full_range {
        prod(y, (pow2(depth) - 1) as real)
    } else {
        prod(prod(219 as real, y) + 16 as real, pow2((depth - 8) as nat) as real)
    }
}

/// The code of a chroma difference before rounding.
pub open spec fn exact_chroma_code(c: real, depth: nat, full_range: bool) -> real {
    if full_range {
        prod(c, (pow2(depth) - 1) as real) + pow2((depth - 1) as nat) as real
    } else {
        prod(prod(224 as real, c) + 128 as real, pow2((depth - 8) as nat) as real)
    }
}

/// A code is a nearest one to a number: off by no more than a half and `2^-31`.
pub open spec fn nearest_code(q: int, v: real) -> bool {
    let e = (1 as real) / (2 as real) + (1 as real) / (0x8000_0000 as real);
    -e <= (q as real) - v <= e
}

/// A fraction below one and its double.
proof fn lemma_share(n: int, d: nat)
    requires
        0 <= n <= d,
        d == 65535 || d == 10000,
    ensures
        0 as real <= share(n, d as int) <= 1 as real,
        near(n, d).close(share(n, d as int), 1),
        1 <= near(n, d).unit,
        n == 0 ==> share(n, d as int) == 0 as real,
{
    assert(0 as real <= share(n, d as int) <= 1 as real && (n == 0 ==> share(n, d as int)
        == 0 as real)) by {
        reveal(ratio);
    }
    lemma_near_error(n, d);
}

/// An integer is its own double.
proof fn lemma_whole_close(n: int)
    ensures
        DoubleModel::whole(n).close(n as real, 0),
        1 <= DoubleModel::whole(n).unit,
{
    lemma_mul_one(n as real);
    lemma_ratio_is(n as real, n as real, 1 as real);
    assert(off(n as real, n as real) == 0 as real) by {
        reveal(off);
    }
}

/// A product with a share is at most the other factor.
proof fn lemma_part(a: real, c: real)
    requires
        0 as real <= a,
        0 as real <= c <= 1 as real,
    ensures
        0 as real <= prod(a, c) <= a,
{
    reveal(prod);
    assert(0 as real <= a * c) by (nonlinear_arith)
        requires
            0 as real <= a,
            0 as real <= c,
    ;
    assert(0 as real <= a * (1 as real - c)) by (nonlinear_arith)
        requires
            0 as real <= a,
            0 as real <= 1 as real - c,
    ;
    assert(a * (1 as real - c) == a - a * c) by (nonlinear_arith);
}

/// A weight and what it leaves.
proof fn lemma_weights(k: int)
    requires
        1 <= k <= 3000,
    ensures
        0 as real <= share(k, 10000) <= (3 as real) / (10 as real),
        weight(k).close(share(k, 10000), 1),
        1 <= weight(k).unit,
        one().minus(weight(k)).close(1 as real - share(k, 10000), 3),
        1 <= one().minus(weight(k)).unit,
{
    let w = share(k, 10000);
    lemma_share(k, 10000);
    lemma_ratio(k as real, 10000 as real);
    assert(w * (10000 as real) == k as real) by {
        reveal(prod);
    }
    assert(k as real <= 3000 as real);
    lemma_whole_close(1);
    lemma_negated_close(weight(k), w, 1);
    lemma_sum_close(one(), weight(k).negated(), 1 as real, -w, 0, 1);
    lemma_rounded_close(one().exact_sum(weight(k).negated()), 1 as real - w, 1, 1);
}

/// The product of a weight and a channel.
proof fn lemma_weighted(x: DoubleModel, v: real, i: int, c: u16)
    requires
        1 <= x.unit,
        x.close(v, i),
        0 as real <= v <= 1 as real,
        0 <= i <= 100,
    ensures
        x.times(channel(c)).close(prod(v, share(c as int, 65535)), i + 4),
        1 <= x.times(channel(c)).unit,
        0 as real <= prod(v, share(c as int, 65535)) <= v,
{
    let w = share(c as int, 65535);
    lemma_share(c as int, 65535);
    lemma_part(v, w);
    lemma_product_close(x, channel(c), v, w, i, 1, 1, 1);
    lemma_rounded_close(x.exact_product(channel(c)), prod(v, w), i + 2, 1);
}

/// The luma signal is close to the exact luma.
proof fn lemma_luma_close(fill: [u16; 3], kr: int, kb: int)
    requires
        1 <= kr <= 3000,
        1 <= kb <= 3000,
    ensures
        luma_signal(fill, kr, kb).close(exact_luma(fill, kr, kb), 27),
        1 <= luma_signal(fill, kr, kb).unit,
        0 as real <= exact_luma(fill, kr, kb) <= 1 as real,
{
    let (r, b) = (share(kr, 10000), share(kb, 10000));
    lemma_weights(kr);
    lemma_weights(kb);
    let rest = one().minus(weight(kr));
    lemma_negated_close(weight(kb), b, 1);
    lemma_sum_close(rest, weight(kb).negated(), 1 as real - r, -b, 3, 1);
    let g = 1 as real - r - b;
    lemma_rounded_close(rest.exact_sum(weight(kb).negated()), g, 4, 1);
    let kg = rest.minus(weight(kb));
    lemma_weighted(weight(kr), r, 1, fill[0]);
    lemma_weighted(kg, g, 6, fill[1]);
    lemma_weighted(weight(kb), b, 1, fill[2]);
    let (x, y, z) = (
        weight(kr).times(channel(fill[0])),
        kg.times(channel(fill[1])),
        weight(kb).times(channel(fill[2])),
    );
    let (u, v, w) = (
        prod(r, share(fill[0] as int, 65535)),
        prod(g, share(fill[1] as int, 65535)),
        prod(b, share(fill[2] as int, 65535)),
    );
    lemma_sum_close(x, y, u, v, 5, 10);
    lemma_rounded_close(x.exact_sum(y), u + v, 15, 1);
    lemma_sum_close(x.plus(y), z, u + v, w, 17, 5);
    lemma_rounded_close(x.plus(y).exact_sum(z), u + v + w, 22, 1);
    assert(luma_signal(fill, kr, kb).close(u + v + w, 24));
}

/// A fraction of at most half its divisor is at most a half.
proof fn lemma_half_ratio(n: real, d: real)
    requires
        d > 0 as real,
        -d <= (2 as real) * n <= d,
    ensures
        -((1 as real) / (2 as real)) <= ratio(n, d) <= (1 as real) / (2 as real),
{
    let h = (1 as real) / (2 as real);
    let z = ratio(n, d);
    lemma_ratio(n, d);
    assert(prod(h, d) == d / (2 as real)) by {
        reveal(prod);
    }
    if z > h {
        lemma_mul_positive(z - h, d);
        lemma_mul_sum(z, h, d);
    }
    if z < -h {
        lemma_mul_positive(-z - h, d);
        lemma_mul_sum(-z, h, d);
        lemma_mul_sum(z, h, d);
    }
}

/// A chroma signal is close to the exact one.
proof fn lemma_chroma_close(c: u16, y: DoubleModel, v: real, k: int)
    requires
        1 <= k <= 3000,
        1 <= y.unit,
        y.close(v, 27),
        0 as real <= v <= 1 as real,
        -(1 as real - share(k, 10000)) <= share(c as int, 65535) - v <= 1 as real - share(k, 10000),
    ensures
        chroma_signal(c, y, k).close(exact_chroma(c, v, k), 42),
        1 <= chroma_signal(c, y, k).unit,
        -((1 as real) / (2 as real)) <= exact_chroma(c, v, k) <= (1 as real) / (2 as real),
{
    let (s, w) = (share(c as int, 65535), share(k, 10000));
    lemma_share(c as int, 65535);
    lemma_weights(k);
    lemma_whole_close(2);
    let two = DoubleModel::whole(2);
    let left = one().minus(weight(k));
    let g = 1 as real - w;
    let d = prod(2 as real, g);
    assert(d == (2 as real) * g) by {
        reveal(prod);
    }
    lemma_product_close(two, left, 2 as real, g, 0, 3, 2, 1);
    lemma_rounded_close(two.exact_product(left), d, 7, 2);
    let m = two.times(left);
    crate::compose::fill::lemma_weight(k);
    let n = s - v;
    lemma_negated_close(y, v, 27);
    lemma_sum_close(channel(c), y.negated(), s, -v, 1, 27);
    lemma_rounded_close(channel(c).exact_sum(y.negated()), n, 28, 1);
    let x = channel(c).minus(y);
    lemma_quotient_close(x, m, n, d, 30, 10, 1);
    lemma_rounded_close(x.exact_quotient(m), ratio(n, d), 40, 1);
    lemma_half_ratio(n, d);
}

/// The code of a double is a nearest one to the number that the double is close to.
proof fn lemma_code_near(x: DoubleModel, v: real, k: int, max: int)
    requires
        1 <= x.unit,
        x.close(v, k),
        0 <= k <= 0x40_0000,
        0 <= max,
        0 as real <= v <= (max as real) + (1 as real) / (2 as real),
    ensures
        nearest_code(code(x, max), v),
{
    let s = x.value();
    assert(-((1 as real) / (0x8000_0000 as real)) <= s - v <= (1 as real) / (0x8000_0000 as real)) by {
        reveal(off);
    }
    let (n, d) = (x.num as real, x.unit as real);
    lemma_ratio(n, d);
    if x.num <= 0 {
        if s > 0 as real {
            lemma_mul_positive(s, d);
        }
    } else {
        let q = (2 * x.num + x.unit) / (2 * x.unit as int);
        let h = (1 as real) / (2 as real);
        vstd::arithmetic::div_mod::lemma_fundamental_div_mod(
            2 * x.num + x.unit,
            2 * x.unit as int,
        );
        let u = x.unit as int;
        assert((2 * u) * q == 2 * (q * u)) by (nonlinear_arith);
        lemma_mul_int(q, u);
        let r = q as real;
        assert(prod(h, d) == d / (2 as real)) by {
            reveal(prod);
        }
        if s < r - h {
            lemma_mul_positive(r - h - s, d);
            lemma_mul_sum(r - h, s, d);
            lemma_mul_sum(r, h, d);
        }
        if s > r + h {
            lemma_mul_positive(s - (r + h), d);
            lemma_mul_sum(s, r + h, d);
            lemma_mul_sum(r, h, d);
        }
    }
}

/// What is known of the powers of two of a depth.
proof fn lemma_depth(depth: nat)
    requires
        8 <= depth <= 16,
    ensures
        ({
            let (max, mid, sh) = (
                pow2(depth) - 1,
                pow2((depth - 1) as nat) as int,
                pow2((depth - 8) as nat) as int,
            );
            &&& 255 <= max <= 65535
            &&& max + 1 == 2 * mid
            &&& mid == 128 * sh
            &&& 1 <= sh <= 256
        }),
{
    vstd::arithmetic::power2::lemma2_to64();
    vstd::arithmetic::power2::lemma_pow2_unfold(depth);
    vstd::arithmetic::power2::lemma_pow2_adds((depth - 8) as nat, 7);
    crate::image::lemma_two_to_bound(16);
    if depth > 8 {
        vstd::arithmetic::power2::lemma_pow2_strictly_increases(8, depth);
    }
    vstd::arithmetic::power2::lemma_pow2_pos((depth - 8) as nat);
}

/// A product with a number of at least none is between the products with its bounds.
proof fn lemma_range(c: real, low: real, high: real, m: real)
    requires
        low <= c <= high,
        m >= 0 as real,
    ensures
        prod(low, m) <= prod(c, m) <= prod(high, m),
{
    lemma_mul_sum(c, low, m);
    lemma_mul_sum(high, c, m);
    lemma_part_sign(c - low, m);
    lemma_part_sign(high - c, m);
}

proof fn lemma_part_sign(a: real, m: real)
    requires
        a >= 0 as real,
        m >= 0 as real,
    ensures
        prod(a, m) >= 0 as real,
{
    reveal(prod);
    assert(a * m >= 0 as real) by (nonlinear_arith)
        requires
            a >= 0 as real,
            m >= 0 as real,
    ;
}

/// The code of luma is a nearest one.
proof fn lemma_luma_code(y: DoubleModel, v: real, depth: nat, full_range: bool)
    requires
        8 <= depth <= 16,
        1 <= y.unit,
        y.close(v, 27),
        0 as real <= v <= 1 as real,
    ensures
        nearest_code(luma_code(y, depth, full_range), exact_luma_code(v, depth, full_range)),
{
    lemma_depth(depth);
    let (max, sh) = (pow2(depth) - 1, pow2((depth - 8) as nat) as int);
    if full_range {
        lemma_full_code(y, v, 27, max);
    } else {
        let (a, b, s) = (
            DoubleModel::whole(219),
            DoubleModel::whole(16),
            DoubleModel::whole(sh),
        );
        lemma_whole_close(219);
        lemma_whole_close(16);
        lemma_whole_close(sh);
        let t = prod(219 as real, v);
        assert(0 as real <= t <= 219 as real) by {
            lemma_part(219 as real, v);
        }
        lemma_product_close(a, y, 219 as real, v, 0, 27, 219, 1);
        lemma_rounded_close(a.exact_product(y), t, 5914, 219);
        lemma_sum_close(a.times(y), b, t, 16 as real, 6134, 0);
        lemma_rounded_close(a.times(y).exact_sum(b), t + 16 as real, 6134, 235);
        let u = a.times(y).plus(b);
        lemma_scaled_code(u, t + 16 as real, 6370, 235, depth);
    }
}

/// The code of a value between 0 and 1 at full range is a nearest one.
proof fn lemma_full_code(y: DoubleModel, v: real, i: int, max: int)
    requires
        1 <= y.unit,
        y.close(v, i),
        0 <= i <= 27,
        0 as real <= v <= 1 as real,
        0 <= max <= 65535,
    ensures
        nearest_code(full_code(y, max), prod(v, max as real)),
{
    let m = DoubleModel::whole(max);
    lemma_whole_close(max);
    lemma_part(max as real, v);
    lemma_mul_order(max as real, v, v);
    lemma_product_close(y, m, v, max as real, i, 0, 1, max);
    assert(max * i + 1 <= 27 * 65535 + 1) by (nonlinear_arith)
        requires
            0 <= max <= 65535,
            0 <= i <= 27,
    ;
    assert(0 <= max * i) by (nonlinear_arith)
        requires
            0 <= max,
            0 <= i,
    ;
    lemma_rounded_close(y.exact_product(m), prod(v, max as real), max * i + 1, max);
    lemma_code_near(y.times(m), prod(v, max as real), max * i + max + 2, max);
}

/// The code of a value of 256 steps at most, at limited range, is a nearest one.
proof fn lemma_scaled_code(u: DoubleModel, v: real, i: int, b: int, depth: nat)
    requires
        8 <= depth <= 16,
        1 <= u.unit,
        u.close(v, i),
        0 <= i <= 10000,
        0 as real <= v <= (b as real),
        v <= 255 as real,
        0 <= b <= 352,
    ensures
        nearest_code(
            code(u.times(DoubleModel::whole(pow2((depth - 8) as nat) as int)), pow2(depth) - 1),
            prod(v, pow2((depth - 8) as nat) as real),
        ),
{
    lemma_depth(depth);
    let (max, sh) = (pow2(depth) - 1, pow2((depth - 8) as nat) as int);
    let s = DoubleModel::whole(sh);
    let w = prod(v, sh as real);
    lemma_whole_close(sh);
    lemma_product_close(u, s, v, sh as real, i, 0, b, sh);
    assert(0 <= sh * i <= 256 * 10000 && 0 <= b * sh <= 352 * 256) by (nonlinear_arith)
        requires
            1 <= sh <= 256,
            0 <= i <= 10000,
            0 <= b <= 352,
    ;
    lemma_range(v, 0 as real, b as real, sh as real);
    lemma_range(v, 0 as real, 255 as real, sh as real);
    lemma_mul_one(sh as real);
    lemma_mul_int(b, sh);
    lemma_mul_int(255, sh);
    lemma_rounded_close(u.exact_product(s), w, sh * i + 1, b * sh);
    lemma_code_near(u.times(s), w, sh * i + b * sh + 2, max);
}

/// The code of a chroma difference is a nearest one.
proof fn lemma_chroma_code(c: DoubleModel, v: real, depth: nat, full_range: bool)
    requires
        8 <= depth <= 16,
        1 <= c.unit,
        c.close(v, 42),
        -((1 as real) / (2 as real)) <= v <= (1 as real) / (2 as real),
    ensures
        nearest_code(chroma_code(c, depth, full_range), exact_chroma_code(v, depth, full_range)),
{
    lemma_depth(depth);
    let (max, mid) = (pow2(depth) - 1, pow2((depth - 1) as nat) as int);
    let h = (1 as real) / (2 as real);
    if full_range {
        let (m, b) = (DoubleModel::whole(max), DoubleModel::whole(mid));
        let t = prod(v, max as real);
        lemma_whole_close(max);
        lemma_whole_close(mid);
        lemma_range(v, -h, h, max as real);
        let g = max as real;
        lemma_mul_sum(h, 0 as real, g);
        assert(prod(h, g) == g / (2 as real)) by {
            reveal(prod);
        }
        lemma_product_close(c, m, v, max as real, 42, 0, 1, max);
        lemma_rounded_close(c.exact_product(m), t, max * 42 + 1, max);
        lemma_sum_close(c.times(m), b, t, mid as real, max * 43 + 2, 0);
        lemma_rounded_close(c.times(m).exact_sum(b), t + mid as real, max * 43 + 2, 2 * max);
        lemma_code_near(c.times(m).plus(b), t + mid as real, max * 45 + 3, max);
    } else {
        let (a, b) = (DoubleModel::whole(224), DoubleModel::whole(128));
        let t = prod(224 as real, v);
        lemma_whole_close(224);
        lemma_whole_close(128);
        assert(-(112 as real) <= t <= 112 as real) by {
            reveal(prod);
        }
        lemma_product_close(a, c, 224 as real, v, 0, 42, 224, 1);
        lemma_rounded_close(a.exact_product(c), t, 9409, 224);
        lemma_sum_close(a.times(c), b, t, 128 as real, 9634, 0);
        lemma_rounded_close(a.times(c).exact_sum(b), t + 128 as real, 9634, 352);
        lemma_scaled_code(a.times(c).plus(b), t + 128 as real, 9987, 352, depth);
    }
}

/// A channel is off the luma by at most what the other weights allow.
proof fn lemma_difference(fill: [u16; 3], kr: int, kb: int)
    requires
        1 <= kr <= 3000,
        1 <= kb <= 3000,
    ensures
        ({
            let y = exact_luma(fill, kr, kb);
            let (r, b) = (1 as real - share(kr, 10000), 1 as real - share(kb, 10000));
            &&& -r <= share(fill[0] as int, 65535) - y <= r
            &&& -b <= share(fill[2] as int, 65535) - y <= b
        }),
{
    let (r, b) = (share(kr, 10000), share(kb, 10000));
    let g = 1 as real - r - b;
    let (x, y, z) = (
        share(fill[0] as int, 65535),
        share(fill[1] as int, 65535),
        share(fill[2] as int, 65535),
    );
    lemma_weights(kr);
    lemma_weights(kb);
    lemma_share(fill[0] as int, 65535);
    lemma_share(fill[1] as int, 65535);
    lemma_share(fill[2] as int, 65535);
    lemma_part(r, x);
    lemma_part(g, y);
    lemma_part(b, z);
    lemma_part(1 as real - r, x);
    lemma_part(1 as real - b, z);
    lemma_mul_sum(1 as real, r, x);
    lemma_mul_sum(1 as real, b, z);
    lemma_mul_one(x);
    lemma_mul_one(z);
}

/// The weights of a matrix.
proof fn lemma_fill_weights(matrix: u16)
    ensures
        1 <= fill_weights(matrix).0 <= 3000,
        1 <= fill_weights(matrix).1 <= 3000,
{
}

/// The coded values of a fill colour are nearest ones to the exact values of the
/// conversion: only a value within `2^-31` of half way between two codes may go to
/// either of them.
pub proof fn law_fill_nearest(fill: [u16; 3], depth: nat, matrix: u16, full_range: bool)
    requires
        8 <= depth <= 16,
    ensures
        ({
            let v = fill_values(fill, depth, matrix, full_range);
            let max = (pow2(depth) - 1) as real;
            let (kr, kb) = fill_weights(matrix);
            let y = exact_luma(fill, kr, kb);
            if matrix == 0 {
                &&& nearest_code(v.0, prod(share(fill[1] as int, 65535), max))
                &&& nearest_code(v.1, prod(share(fill[2] as int, 65535), max))
                &&& nearest_code(v.2, prod(share(fill[0] as int, 65535), max))
            } else {
                &&& nearest_code(v.0, exact_luma_code(y, depth, full_range))
                &&& nearest_code(
                    v.1,
                    exact_chroma_code(exact_chroma(fill[2], y, kb), depth, full_range),
                )
                &&& nearest_code(
                    v.2,
                    exact_chroma_code(exact_chroma(fill[0], y, kr), depth, full_range),
                )
            }
        }),
{
    lemma_depth(depth);
    if matrix == 0 {
        let max = pow2(depth) - 1;
        lemma_share(fill[0] as int, 65535);
        lemma_share(fill[1] as int, 65535);
        lemma_share(fill[2] as int, 65535);
        lemma_full_code(channel(fill[0]), share(fill[0] as int, 65535), 1, max);
        lemma_full_code(channel(fill[1]), share(fill[1] as int, 65535), 1, max);
        lemma_full_code(channel(fill[2]), share(fill[2] as int, 65535), 1, max);
    } else {
        let (kr, kb) = fill_weights(matrix);
        lemma_fill_weights(matrix);
        let (x, y) = (luma_signal(fill, kr, kb), exact_luma(fill, kr, kb));
        lemma_luma_close(fill, kr, kb);
        lemma_difference(fill, kr, kb);
        lemma_luma_code(x, y, depth, full_range);
        lemma_chroma_close(fill[2], x, y, kb);
        lemma_chroma_close(fill[0], x, y, kr);
        lemma_chroma_code(
            chroma_signal(fill[2], x, kb),
            exact_chroma(fill[2], y, kb),
            depth,
            full_range,
        );
        lemma_chroma_code(
            chroma_signal(fill[0], x, kr),
            exact_chroma(fill[0], y, kr),
            depth,
            full_range,
        );
    }
}

/// A nearest code of a number of 65535ths is the rounded one: none of them is half
/// way between two codes.
proof fn lemma_exact_code(q: int, n: int, v: real, max: int)
    requires
        0 <= n <= 65535 * max,
        (65535 as real) * v == n as real,
        nearest_code(q, v),
    ensures
        q == quantised(n, 65535, max),
{
    let d = 65535 * q - n;
    assert(d as real == (65535 as real) * ((q as real) - v));
    assert(-65535 < 2 * d < 65535) by {
        assert(-(65536 as real) < (2 as real) * (d as real));
        assert((2 as real) * (d as real) < 65536 as real);
        assert((2 * d) as real == (2 as real) * (d as real));
    }
    assert(2 * n + 65535 == q * 131070 + (65535 - 2 * d));
    vstd::arithmetic::div_mod::lemma_fundamental_div_mod_converse(
        2 * n + 65535,
        131070,
        q,
        65535 - 2 * d,
    );
}

/// A neutral grey is depth-scaled luma with middle chroma, for every matrix.
#[verifier::rlimit(50)]
pub proof fn law_grey_fill(c: u16, depth: nat, matrix: u16, full_range: bool)
    requires
        8 <= depth <= 16,
        matrix != 0,
    ensures
        ({
            let v = fill_values([c, c, c], depth, matrix, full_range);
            let max = pow2(depth) - 1;
            &&& v.0 == (if full_range {
                quantised(c * max, 65535, max)
            } else {
                quantised((219 * c + 16 * 65535) * pow2((depth - 8) as nat), 65535, max)
            })
            &&& v.1 == pow2((depth - 1) as nat)
            &&& v.2 == pow2((depth - 1) as nat)
        }),
{
    let fill = [c, c, c];
    let v = fill_values(fill, depth, matrix, full_range);
    let (kr, kb) = fill_weights(matrix);
    let (max, mid, sh) = (
        pow2(depth) - 1,
        pow2((depth - 1) as nat) as int,
        pow2((depth - 8) as nat) as int,
    );
    lemma_depth(depth);
    lemma_fill_weights(matrix);
    law_fill_nearest(fill, depth, matrix, full_range);
    let (r, b) = (share(kr, 10000), share(kb, 10000));
    let s = share(c as int, 65535);
    let y = exact_luma(fill, kr, kb);
    assert(fill[0] == c && fill[1] == c && fill[2] == c);
    lemma_mul_sum(r, 1 as real - r - b, s);
    lemma_mul_sum(1 as real - b, b, s);
    lemma_mul_one(s);
    assert(y == s);
    lemma_no_chroma(c, kb, depth, full_range);
    lemma_no_chroma(c, kr, depth, full_range);
    lemma_ratio(c as real, 65535 as real);
    let o = 65535 as real;
    let x = exact_luma_code(s, depth, full_range);
    assert(0 <= c * max <= 65535 * max && 0 <= (219 * c + 16 * 65535) * sh <= 65535 * max)
        by (nonlinear_arith)
        requires
            0 <= c <= 65535,
            0 <= max,
            max + 1 == 256 * sh,
            1 <= sh,
    ;
    if full_range {
        lemma_mul_order(s, max as real, o);
        lemma_mul_order(max as real, o, o);
        lemma_mul_order(s, o, max as real);
        lemma_mul_int(c as int, max);
        assert(prod(x, o) == o * x) by {
            reveal(prod);
        }
        lemma_exact_code(v.0, c * max, x, max);
    } else {
        let t = prod(219 as real, s) + 16 as real;
        lemma_mul_order(t, sh as real, o);
        lemma_mul_order(sh as real, o, o);
        lemma_mul_order(t, o, sh as real);
        assert(prod(t, o) == (219 * c + 16 * 65535) as real) by {
            reveal(prod);
        }
        lemma_mul_int(219 * c + 16 * 65535, sh);
        assert(prod(x, o) == o * x) by {
            reveal(prod);
        }
        lemma_exact_code(v.0, (219 * c + 16 * 65535) * sh, x, max);
    }
}

/// A grey has no chroma difference, whose code is the middle one.
proof fn lemma_no_chroma(c: u16, k: int, depth: nat, full_range: bool)
    requires
        8 <= depth <= 16,
        1 <= k <= 3000,
    ensures
        exact_chroma_code(
            exact_chroma(c, share(c as int, 65535), k),
            depth,
            full_range,
        ) == pow2((depth - 1) as nat) as real,
{
    lemma_depth(depth);
    lemma_weights(k);
    let (max, sh) = (pow2(depth) - 1, pow2((depth - 8) as nat) as int);
    let d = prod(2 as real, 1 as real - share(k, 10000));
    assert(d > 0 as real) by {
        reveal(prod);
    }
    lemma_mul_one(d);
    lemma_ratio_is(0 as real, 0 as real, d);
    lemma_mul_one(max as real);
    lemma_mul_one(224 as real);
    lemma_mul_order(224 as real, 0 as real, 0 as real);
    lemma_mul_int(128, sh);
}

} // verus!
