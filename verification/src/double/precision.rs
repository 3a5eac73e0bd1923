//! How far the results of double precision are from the exact ones.
use crate::double::{half_even, lemma_half_even, lemma_unit, near, unit, DoubleModel, LEAST};
use vstd::prelude::*;

verus! {

/// A product of integers, as a number.
proof fn lemma_real_product(a: int, b: int)
    ensures
        (a * b) as real == (a as real) * (b as real),
{
    assert((a * b) as real == (a as real) * (b as real)) by (nonlinear_arith);
}

/// A quotient times its divisor is the dividend.
proof fn lemma_quotient(a: real, b: real)
    requires
        b > 0 as real,
    ensures
        (a / b) * b == a,
{
    assert((a / b) * b == a) by (nonlinear_arith)
        requires
            b > 0 as real,
    ;
}

/// A product is positive with its factors.
proof fn lemma_positive(a: real, b: real)
    requires
        a > 0 as real,
        b > 0 as real,
    ensures
        a * b > 0 as real,
{
    assert(a * b > 0 as real) by (nonlinear_arith)
        requires
            a > 0 as real,
            b > 0 as real,
    ;
}

/// What gives the dividend is the quotient.
proof fn lemma_quotient_is(q: real, a: real, b: real)
    requires
        b > 0 as real,
        q * b == a,
    ensures
        a / b == q,
{
    lemma_quotient(a, b);
    let e = a / b - q;
    assert(e * b == (a / b) * b - q * b) by (nonlinear_arith)
        requires
            e == a / b - q,
    ;
    if e > 0 as real {
        lemma_positive(e, b);
    } else if e < 0 as real {
        lemma_positive(-e, b);
        assert((-e) * b == -(e * b)) by (nonlinear_arith);
    }
}

/// A product of bounded factors.
proof fn lemma_bounded(x: real, y: real, a: real, b: real)
    requires
        -a <= x <= a,
        -b <= y <= b,
    ensures
        -(a * b) <= x * y <= a * b,
{
    assert((a - x) * (b + y) >= 0 as real) by (nonlinear_arith)
        requires
            a - x >= 0 as real,
            b + y >= 0 as real,
    ;
    assert((a + x) * (b - y) >= 0 as real) by (nonlinear_arith)
        requires
            a + x >= 0 as real,
            b - y >= 0 as real,
    ;
    assert((a - x) * (b - y) >= 0 as real) by (nonlinear_arith)
        requires
            a - x >= 0 as real,
            b - y >= 0 as real,
    ;
    assert((a + x) * (b + y) >= 0 as real) by (nonlinear_arith)
        requires
            a + x >= 0 as real,
            b + y >= 0 as real,
    ;
    assert((a - x) * (b + y) == a * b + a * y - x * b - x * y) by (nonlinear_arith);
    assert((a + x) * (b - y) == a * b - a * y + x * b - x * y) by (nonlinear_arith);
    assert((a - x) * (b - y) == a * b - a * y - x * b + x * y) by (nonlinear_arith);
    assert((a + x) * (b + y) == a * b + a * y + x * b + x * y) by (nonlinear_arith);
}

/// What is within a bound after multiplication by one or more is within it before.
proof fn lemma_shrunk(r: real, q: real, k: real)
    requires
        -k <= r * q <= k,
        q >= 1 as real,
    ensures
        -k <= r <= k,
{
    if r > k {
        assert((r - k) * q > 0 as real) by (nonlinear_arith)
            requires
                r - k > 0 as real,
                q >= 1 as real,
        ;
        assert((r - k) * q == r * q - k * q) by (nonlinear_arith);
        assert(k >= 0 as real);
        assert(k * (q - 1 as real) >= 0 as real) by (nonlinear_arith)
            requires
                k >= 0 as real,
                q - 1 as real >= 0 as real,
        ;
        assert(k * (q - 1 as real) == k * q - k) by (nonlinear_arith);
    }
    if r < -k {
        assert((-r - k) * q > 0 as real) by (nonlinear_arith)
            requires
                -r - k > 0 as real,
                q >= 1 as real,
        ;
        assert((-r - k) * q == -(r * q) - k * q) by (nonlinear_arith);
        assert(k >= 0 as real);
        assert(k * (q - 1 as real) >= 0 as real) by (nonlinear_arith)
            requires
                k >= 0 as real,
                q - 1 as real >= 0 as real,
        ;
        assert(k * (q - 1 as real) == k * q - k) by (nonlinear_arith);
    }
}

/// A product, as a name.
#[verifier::opaque]
pub open spec fn prod(a: real, b: real) -> real {
    a * b
}

/// A quotient, as a name.
#[verifier::opaque]
pub open spec fn ratio(a: real, b: real) -> real {
    a / b
}

/// A product of integers, as a number.
pub(crate) proof fn lemma_mul_int(a: int, b: int)
    ensures
        (a * b) as real == prod(a as real, b as real),
{
    reveal(prod);
    lemma_real_product(a, b);
}

/// Products in another order.
pub(crate) proof fn lemma_mul_order(a: real, b: real, c: real)
    ensures
        prod(a, b) == prod(b, a),
        prod(prod(a, b), c) == prod(a, prod(b, c)),
{
    reveal(prod);
    assert(a * b == b * a) by (nonlinear_arith);
    assert((a * b) * c == a * (b * c)) by (nonlinear_arith);
}

/// A product of a sum.
pub(crate) proof fn lemma_mul_sum(a: real, b: real, c: real)
    ensures
        prod(a + b, c) == prod(a, c) + prod(b, c),
        prod(a - b, c) == prod(a, c) - prod(b, c),
        prod(-a, c) == -prod(a, c),
{
    reveal(prod);
    assert((a + b) * c == a * c + b * c) by (nonlinear_arith);
    assert((a - b) * c == a * c - b * c) by (nonlinear_arith);
    assert((-a) * c == -(a * c)) by (nonlinear_arith);
}

/// A product with one.
pub(crate) proof fn lemma_mul_one(a: real)
    ensures
        prod(1 as real, a) == a,
        prod(a, 1 as real) == a,
        prod(0 as real, a) == 0 as real,
{
    reveal(prod);
}

/// A product is positive with its factors.
pub(crate) proof fn lemma_mul_positive(a: real, b: real)
    requires
        a > 0 as real,
        b > 0 as real,
    ensures
        prod(a, b) > 0 as real,
{
    reveal(prod);
    lemma_positive(a, b);
}

/// A product of bounded factors.
pub(crate) proof fn lemma_mul_bounded(x: real, y: real, a: real, b: real)
    requires
        -a <= x <= a,
        -b <= y <= b,
    ensures
        -prod(a, b) <= prod(x, y) <= prod(a, b),
{
    reveal(prod);
    lemma_bounded(x, y, a, b);
}

/// What is within a bound after multiplication by one or more is within it before.
pub(crate) proof fn lemma_mul_shrunk(r: real, q: real, k: real)
    requires
        -k <= prod(r, q) <= k,
        q >= 1 as real,
    ensures
        -k <= r <= k,
{
    reveal(prod);
    lemma_shrunk(r, q, k);
}

/// A quotient times its divisor is the dividend.
pub(crate) proof fn lemma_ratio(a: real, b: real)
    requires
        b > 0 as real,
    ensures
        prod(ratio(a, b), b) == a,
{
    reveal(prod);
    reveal(ratio);
    lemma_quotient(a, b);
}

/// What gives the dividend is the quotient.
pub(crate) proof fn lemma_ratio_is(q: real, a: real, b: real)
    requires
        b > 0 as real,
        prod(q, b) == a,
    ensures
        ratio(a, b) == q,
{
    reveal(prod);
    reveal(ratio);
    lemma_quotient_is(q, a, b);
}

/// How far a number is off another, in parts of `2^-53`.
#[verifier::opaque]
pub open spec fn off(x: real, v: real) -> real {
    (x - v) * (0x20_0000_0000_0000 as real)
}

impl DoubleModel {
    /// The number that a double stands for.
    pub open spec fn value(self) -> real {
        ratio(self.num as real, self.unit as real)
    }

    /// The double is within `k` times `2^-53` of a number.
    pub open spec fn close(self, v: real, k: int) -> bool {
        -(k as real) <= off(self.value(), v) <= (k as real)
    }
}

/// A significand `x` over a unit `1 / y` that is off by half a unit from `z / b` is off
/// by at most its `2^-53`th part.
proof fn lemma_half_unit(x: real, y: real, z: real, b: real, l: real)
    requires
        b > 0 as real,
        y > 0 as real,
        z > 0 as real,
        l > 0 as real,
        -b <= (2 as real) * (x * b) - (2 as real) * (z * y) <= b,
        b * l <= z * y,
    ensures
        -(z / b) <= (x / y - z / b) * ((2 as real) * l) <= z / b,
        z / b > 0 as real,
{
    let w = z / b;
    let f = x / y;
    lemma_quotient(z, b);
    lemma_quotient(x, y);
    let g = f - w;
    assert((2 as real) * (x * b) - (2 as real) * (z * y) == (2 as real) * (g * (y * b)))
        by (nonlinear_arith)
        requires
            g == f - w,
            x == f * y,
            z == w * b,
    ;
    assert(-(1 as real) <= (2 as real) * (g * y) <= 1 as real) by (nonlinear_arith)
        requires
            -b <= (2 as real) * (g * (y * b)) <= b,
            b > 0 as real,
    ;
    assert(l <= w * y) by (nonlinear_arith)
        requires
            b * l <= (w * b) * y,
            b > 0 as real,
    ;
    let h = g * ((2 as real) * l);
    assert(-(w * y) <= h * y <= w * y) by (nonlinear_arith)
        requires
            -(1 as real) <= (2 as real) * (g * y) <= 1 as real,
            l > 0 as real,
            l <= w * y,
            h == g * ((2 as real) * l),
    ;
    assert(-w <= h <= w) by (nonlinear_arith)
        requires
            -(w * y) <= h * y <= w * y,
            y > 0 as real,
    ;
    assert(w > 0 as real) by (nonlinear_arith)
        requires
            w * b == z,
            z > 0 as real,
            b > 0 as real,
    ;
}

/// [`lemma_half_unit`] over names.
proof fn lemma_half_unit_off(x: real, y: real, z: real, b: real, l: real)
    requires
        b > 0 as real,
        y > 0 as real,
        z > 0 as real,
        l == 0x10_0000_0000_0000 as real,
        -b <= (2 as real) * prod(x, b) - (2 as real) * prod(z, y) <= b,
        prod(b, l) <= prod(z, y),
    ensures
        -ratio(z, b) <= off(ratio(x, y), ratio(z, b)) <= ratio(z, b),
        ratio(z, b) > 0 as real,
{
    reveal(prod);
    reveal(ratio);
    reveal(off);
    lemma_half_unit(x, y, z, b, l);
}

/// The double nearest to a fraction is off by at most its `2^-53`th part.
pub(crate) proof fn lemma_near_error(n: int, d: nat)
    requires
        1 <= d,
        -(2 * (d * LEAST)) < n < 2 * (d * LEAST),
    ensures
        1 <= near(n, d).unit,
        ({
            let v = ratio(n as real, d as real);
            let e = off(near(n, d).value(), v);
            &&& v >= 0 as real ==> -v <= e <= v
            &&& v <= 0 as real ==> v <= e <= -v
        }),
{
    let b = d as real;
    if n == 0 {
        lemma_mul_one(b);
        lemma_mul_one(1 as real);
        lemma_ratio_is(0 as real, 0 as real, b);
        lemma_ratio_is(0 as real, 0 as real, 1 as real);
        lemma_off_none(0 as real);
    } else {
        let a: nat = if n < 0 {
            (-n) as nat
        } else {
            n as nat
        };
        lemma_unit(a, d);
        let u = unit(a, d);
        let t = a * u;
        let m = half_even(t as int, d as int);
        lemma_half_even(t as int, d as int);
        let (x, y, z, l) = (m as real, u as real, a as real, LEAST as real);
        lemma_mul_int(a as int, u as int);
        lemma_mul_int(m, d as int);
        lemma_mul_int(d as int, LEAST as int);
        assert(2 * m * d == 2 * (m * d)) by (nonlinear_arith);
        lemma_half_unit_off(x, y, z, b, l);
        if n > 0 {
            assert(near(n, d).value() == ratio(x, y));
        } else {
            lemma_ratio_negative(z, b);
            lemma_ratio_negative(x, y);
            assert(near(n, d).value() == -ratio(x, y));
            lemma_off_negative(ratio(x, y), ratio(z, b));
        }
    }
}

/// The quotient of a negative is the negative of the quotient.
pub(crate) proof fn lemma_ratio_negative(a: real, b: real)
    requires
        b > 0 as real,
    ensures
        ratio(-a, b) == -ratio(a, b),
{
    lemma_ratio(a, b);
    lemma_mul_sum(ratio(a, b), 0 as real, b);
    lemma_ratio_is(-ratio(a, b), -a, b);
}

/// A number is not off itself.
proof fn lemma_off_none(v: real)
    ensures
        off(v, v) == 0 as real,
{
    reveal(off);
}

/// How far a negative is off.
pub(crate) proof fn lemma_off_negative(p: real, v: real)
    ensures
        off(-p, -v) == -off(p, v),
{
    reveal(off);
}

} // verus!
