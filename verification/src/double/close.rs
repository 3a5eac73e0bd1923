//! How far sums, products and quotients in double precision are from the exact ones.
use crate::double::precision::{
    lemma_mul_bounded, lemma_mul_int, lemma_mul_order, lemma_mul_positive, lemma_mul_shrunk, lemma_mul_sum,
    lemma_near_error, lemma_off_negative, lemma_ratio, lemma_ratio_is, lemma_ratio_negative, prod, off, ratio,
};
use crate::double::{DoubleModel, LEAST};
use vstd::prelude::*;

verus! {

/// What is off by little is off by less than one.
proof fn lemma_off_small(x: real, v: real)
    requires
        -(0x1_0000_0000 as real) <= off(x, v) <= 0x1_0000_0000 as real,
    ensures
        -(1 as real) <= x - v <= 1 as real,
{
    reveal(off);
}

/// How far a number is off in two steps.
proof fn lemma_off_steps(r: real, s: real, v: real)
    ensures
        off(r, v) == off(r, s) + off(s, v),
{
    reveal(off);
}

/// How far a sum is off.
proof fn lemma_off_sum(p: real, q: real, v: real, w: real)
    ensures
        off(p + q, v + w) == off(p, v) + off(q, w),
{
    reveal(off);
}

/// A bounded number of units is fewer than twice the least significand.
proof fn lemma_far_below(s: real, d: real, c: real, l: real)
    requires
        -c <= s <= c,
        d > 0 as real,
        c < (2 as real) * l,
    ensures
        -((2 as real) * prod(d, l)) < prod(s, d),
        prod(s, d) < (2 as real) * prod(d, l),
{
    lemma_mul_bounded(s, d, c, d);
    lemma_mul_positive(l + l - c, d);
    lemma_mul_sum(l + l, c, d);
    lemma_mul_sum(l, l, d);
    lemma_mul_order(l, d, d);
}

/// Rounding a value adds a rounding for each whole that it is within.
pub(crate) proof fn lemma_rounded_close(t: DoubleModel, v: real, k: int, b: int)
    requires
        1 <= t.unit,
        t.close(v, k),
        -(b as real) <= v <= (b as real),
        0 <= k <= 0x1_0000_0000,
        0 <= b <= 0x1_0000_0000,
    ensures
        t.rounded().close(v, k + b + 1),
        1 <= t.rounded().unit,
{
    let s = t.value();
    lemma_off_small(s, v);
    lemma_ratio(t.num as real, t.unit as real);
    lemma_far_below(s, t.unit as real, (b + 1) as real, LEAST as real);
    lemma_mul_int(t.unit as int, LEAST as int);
    lemma_near_error(t.num, t.unit);
    lemma_off_steps(t.rounded().value(), s, v);
}

/// Turning the sign keeps what a value is off by.
pub(crate) proof fn lemma_negated_close(x: DoubleModel, v: real, i: int)
    requires
        1 <= x.unit,
        x.close(v, i),
    ensures
        x.negated().close(-v, i),
{
    lemma_ratio_negative(x.num as real, x.unit as real);
    lemma_off_negative(x.value(), v);
}

/// The value of a sum that is not rounded.
proof fn lemma_sum_value(x: DoubleModel, y: DoubleModel)
    requires
        1 <= x.unit,
        1 <= y.unit,
    ensures
        x.exact_sum(y).value() == x.value() + y.value(),
        1 <= x.exact_sum(y).unit,
{
    let t = x.exact_sum(y);
    let (a, b, c, d) = (x.num as real, x.unit as real, y.num as real, y.unit as real);
    let (p, q) = (x.value(), y.value());
    assert(1 <= t.unit) by (nonlinear_arith)
        requires
            t.unit == x.unit * y.unit,
            1 <= x.unit,
            1 <= y.unit,
    ;
    lemma_mul_int(x.num, y.unit as int);
    lemma_mul_int(y.num, x.unit as int);
    lemma_mul_int(x.unit as int, y.unit as int);
    lemma_ratio(a, b);
    lemma_ratio(c, d);
    lemma_mul_sum(p, q, prod(b, d));
    lemma_mul_order(p, b, d);
    lemma_mul_order(q, d, b);
    lemma_mul_order(b, d, d);
    lemma_ratio_is(p + q, t.num as real, t.unit as real);
}

/// The value of a product that is not rounded.
proof fn lemma_product_value(x: DoubleModel, y: DoubleModel)
    requires
        1 <= x.unit,
        1 <= y.unit,
    ensures
        x.exact_product(y).value() == prod(x.value(), y.value()),
        1 <= x.exact_product(y).unit,
{
    let t = x.exact_product(y);
    let (a, b, c, d) = (x.num as real, x.unit as real, y.num as real, y.unit as real);
    let (p, q) = (x.value(), y.value());
    assert(1 <= t.unit) by (nonlinear_arith)
        requires
            t.unit == x.unit * y.unit,
            1 <= x.unit,
            1 <= y.unit,
    ;
    lemma_mul_int(x.num, y.num);
    lemma_mul_int(x.unit as int, y.unit as int);
    lemma_ratio(a, b);
    lemma_ratio(c, d);
    // (p q) (b d) == p (q (b d)) == p ((b d) q) == p (b (d q)) == (p b) (q d)
    lemma_mul_order(p, q, prod(b, d));
    lemma_mul_order(q, prod(b, d), b);
    lemma_mul_order(b, d, q);
    lemma_mul_order(d, q, q);
    lemma_mul_order(p, b, c);
    lemma_ratio_is(prod(p, q), t.num as real, t.unit as real);
}

/// The sum of two values, not rounded, is off by the sum of what they are off by.
pub(crate) proof fn lemma_sum_close(x: DoubleModel, y: DoubleModel, v: real, w: real, i: int, j: int)
    requires
        1 <= x.unit,
        1 <= y.unit,
        x.close(v, i),
        y.close(w, j),
    ensures
        x.exact_sum(y).close(v + w, i + j),
        1 <= x.exact_sum(y).unit,
{
    lemma_sum_value(x, y);
    lemma_off_sum(x.value(), y.value(), v, w);
}

/// How far a product is off.
proof fn lemma_off_product(p: real, q: real, v: real, w: real)
    ensures
        off(prod(p, q), prod(v, w)) == prod(v, off(q, w)) + prod(w, off(p, v)) + prod(p - v, off(q, w)),
{
    let o = 0x20_0000_0000_0000 as real;
    assert(off(prod(p, q), prod(v, w)) == prod(prod(p, q) - prod(v, w), o)) by {
        reveal(off);
        reveal(prod);
    }
    assert(off(q, w) == prod(q - w, o) && off(p, v) == prod(p - v, o)) by {
        reveal(off);
        reveal(prod);
    }
    // p q - v w == v (q - w) + w (p - v) + (p - v) (q - w)
    let (a, b) = (p - v, q - w);
    lemma_mul_sum(q, w, v);
    lemma_mul_order(v, b, o);
    lemma_mul_order(v, q, o);
    lemma_mul_order(v, w, o);
    lemma_mul_sum(p, v, w);
    lemma_mul_order(w, a, o);
    lemma_mul_order(p, w, o);
    lemma_mul_sum(p, v, b);
    lemma_mul_order(a, b, o);
    lemma_mul_order(p, b, o);
    lemma_mul_sum(q, w, p);
    lemma_mul_order(p, q, o);
    assert(prod(p, q) - prod(v, w) == prod(v, b) + prod(w, a) + prod(a, b));
    lemma_mul_sum(prod(v, b), prod(w, a), o);
    lemma_mul_sum(prod(v, b) + prod(w, a), prod(a, b), o);
}

/// What is off by little, times what is off by little, is less than one.
proof fn lemma_tiny(p: real, v: real, h: real)
    requires
        -(0x1_0000 as real) <= off(p, v) <= 0x1_0000 as real,
        -(0x1_0000 as real) <= h <= 0x1_0000 as real,
    ensures
        -(1 as real) <= prod(p - v, h) <= 1 as real,
{
    let c = (1 as real) / (0x1_0000 as real);
    assert(-c <= p - v <= c) by {
        reveal(off);
    }
    lemma_mul_bounded(p - v, h, c, 0x1_0000 as real);
    assert(prod(c, 0x1_0000 as real) == 1 as real) by {
        reveal(prod);
    }
}

/// The product of two values, not rounded, is off by what each is off by times the
/// other.
pub(crate) proof fn lemma_product_close(
    x: DoubleModel,
    y: DoubleModel,
    v: real,
    w: real,
    i: int,
    j: int,
    a: int,
    b: int,
)
    requires
        1 <= x.unit,
        1 <= y.unit,
        x.close(v, i),
        y.close(w, j),
        -(a as real) <= v <= (a as real),
        -(b as real) <= w <= (b as real),
        0 <= i <= 0x1_0000,
        0 <= j <= 0x1_0000,
        0 <= a,
        0 <= b,
    ensures
        x.exact_product(y).close(prod(v, w), a * j + b * i + 1),
        1 <= x.exact_product(y).unit,
{
    let (p, q) = (x.value(), y.value());
    lemma_product_value(x, y);
    lemma_off_product(p, q, v, w);
    lemma_tiny(p, v, off(q, w));
    lemma_mul_bounded(v, off(q, w), a as real, j as real);
    lemma_mul_bounded(w, off(p, v), b as real, i as real);
    lemma_mul_int(a, j);
    lemma_mul_int(b, i);
}

/// The value of a quotient that is not rounded.
proof fn lemma_quotient_value(x: DoubleModel, y: DoubleModel)
    requires
        1 <= x.unit,
        1 <= y.unit <= y.num,
    ensures
        prod(x.exact_quotient(y).value(), y.value()) == x.value(),
        1 <= x.exact_quotient(y).unit,
        y.value() >= 1 as real,
{
    let t = x.exact_quotient(y);
    let (m, n, e, f) = (x.num as real, x.unit as real, y.num as real, y.unit as real);
    let (u, q) = (t.value(), y.value());
    assert(1 <= t.unit) by (nonlinear_arith)
        requires
            t.unit == x.unit * y.num,
            1 <= x.unit,
            1 <= y.num,
    ;
    lemma_mul_int(x.num, y.unit as int);
    lemma_mul_int(x.unit as int, y.num);
    lemma_ratio(m, n);
    lemma_ratio(e, f);
    lemma_ratio(t.num as real, t.unit as real);
    if q < 1 as real {
        lemma_mul_positive(1 as real - q, f);
        lemma_mul_sum(1 as real, q, f);
        crate::double::precision::lemma_mul_one(f);
    }
    // u (n (q f)) == m f, so ((u q) n) f == m f.
    lemma_mul_order(n, q, f);
    lemma_mul_order(n, q, n);
    lemma_mul_order(q, n, f);
    lemma_mul_order(u, prod(q, n), f);
    lemma_mul_order(u, q, n);
    let z = prod(prod(u, q), n);
    lemma_mul_sum(z, m, f);
    if z > m {
        lemma_mul_positive(z - m, f);
    } else if z < m {
        lemma_mul_positive(m - z, f);
        lemma_mul_sum(m, z, f);
    }
    lemma_ratio_is(prod(u, q), m, n);
}

/// How far a quotient is off, times its divisor.
proof fn lemma_off_quotient(u: real, z: real, q: real, w: real)
    ensures
        prod(off(u, z), q) == off(prod(u, q), prod(z, w)) - prod(z, off(q, w)),
{
    let o = 0x20_0000_0000_0000 as real;
    assert(off(u, z) == prod(u - z, o) && off(q, w) == prod(q - w, o) && off(
        prod(u, q),
        prod(z, w),
    ) == prod(prod(u, q) - prod(z, w), o)) by {
        reveal(off);
        reveal(prod);
    }
    lemma_mul_order(u - z, o, q);
    lemma_mul_order(o, q, q);
    lemma_mul_order(u - z, q, o);
    lemma_mul_sum(u, z, q);
    lemma_mul_order(z, q - w, o);
    lemma_mul_sum(q, w, z);
    lemma_mul_order(z, q, o);
    lemma_mul_order(z, w, o);
    lemma_mul_order(z, q - w, q);
    lemma_mul_sum(prod(u, q) - prod(z, w), prod(z, q - w), o);
}

/// The quotient of two values, not rounded, is off by what the dividend is off by and
/// by the dividend times what the divisor is off by.
pub(crate) proof fn lemma_quotient_close(
    x: DoubleModel,
    y: DoubleModel,
    v: real,
    w: real,
    i: int,
    j: int,
    a: int,
)
    requires
        1 <= x.unit,
        1 <= y.unit <= y.num,
        x.close(v, i),
        y.close(w, j),
        -(a as real) <= v <= (a as real),
        w >= 1 as real,
        0 <= i,
        0 <= j,
        0 <= a,
    ensures
        x.exact_quotient(y).close(ratio(v, w), i + a * j),
        1 <= x.exact_quotient(y).unit,
        -(a as real) <= ratio(v, w) <= (a as real),
{
    let (z, u, q) = (ratio(v, w), x.exact_quotient(y).value(), y.value());
    lemma_quotient_value(x, y);
    lemma_ratio(v, w);
    lemma_mul_shrunk(z, w, a as real);
    lemma_off_quotient(u, z, q, w);
    lemma_mul_bounded(z, off(q, w), a as real, j as real);
    lemma_mul_int(a, j);
    lemma_mul_shrunk(off(u, z), q, (i + a * j) as real);
}

} // verus!
