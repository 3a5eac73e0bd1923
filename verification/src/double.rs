//! Arithmetic in double precision, on integers: a value is an integer over a power
//! of two, and each operation gives the double nearest to its exact result, as
//! binary64 has it: 53-bit significands, ties to even. The values in use are far
//! from the least and the largest exponent.
use vstd::arithmetic::power2::{
    lemma2_to64, lemma2_to64_rest, lemma_pow2_adds, lemma_pow2_pos, lemma_pow2_strictly_increases,
    lemma_pow2_unfold, pow2,
};
use vstd::prelude::*;

pub mod close;
pub mod precision;

verus! {

/// `2^52`, the least significand.
pub const LEAST: u128 = 0x10_0000_0000_0000;

/// `n / d` rounded to the nearest integer, a tie to the even one.
pub open spec fn half_even(n: int, d: int) -> int {
    let (q, r) = (n / d, n % d);
    if 2 * r > d || (2 * r == d && q % 2 == 1) {
        q + 1
    } else {
        q
    }
}

/// The least power of two that brings `n / d` up to the least significand.
pub open spec fn unit(n: nat, d: nat) -> nat
    decreases
            (if n < d * LEAST {
                d * LEAST - n
            } else {
                0
            }),
{
    if n == 0 || n >= d * LEAST {
        1
    } else {
        2 * unit(2 * n, d)
    }
}

/// The double nearest to `n / d`: an integer over a power of two.
pub open spec fn double_of(n: nat, d: nat) -> (nat, nat) {
    let u = unit(n, d);
    (half_even((n * u) as int, d as int) as nat, u)
}

/// A value in double precision: `num / unit`.
pub struct DoubleModel {
    /// The numerator.
    pub num: int,
    /// The denominator, a power of two.
    pub unit: nat,
}

/// The double nearest to `n / d`.
pub open spec fn near(n: int, d: nat) -> DoubleModel {
    if n == 0 {
        DoubleModel { num: 0, unit: 1 }
    } else if n > 0 {
        let (m, u) = double_of(n as nat, d);
        DoubleModel { num: m as int, unit: u }
    } else {
        let (m, u) = double_of((-n) as nat, d);
        DoubleModel { num: -m, unit: u }
    }
}

impl DoubleModel {
    /// A small integer, which needs no rounding.
    pub open spec fn whole(n: int) -> DoubleModel {
        DoubleModel { num: n, unit: 1 }
    }

    /// The sum of two values, not rounded.
    pub open spec fn exact_sum(self, x: DoubleModel) -> DoubleModel {
        DoubleModel {
            num: self.num * x.unit + x.num * self.unit,
            unit: self.unit * x.unit,
        }
    }

    /// The product of two values, not rounded.
    pub open spec fn exact_product(self, x: DoubleModel) -> DoubleModel {
        DoubleModel { num: self.num * x.num, unit: self.unit * x.unit }
    }

    /// The quotient of a value and a positive one, not rounded.
    pub open spec fn exact_quotient(self, x: DoubleModel) -> DoubleModel {
        DoubleModel { num: self.num * x.unit, unit: self.unit * (x.num as nat) }
    }

    /// The nearest double.
    pub open spec fn rounded(self) -> DoubleModel {
        near(self.num, self.unit)
    }

    /// The negative of a value.
    pub open spec fn negated(self) -> DoubleModel {
        DoubleModel { num: -self.num, unit: self.unit }
    }

    /// The sum of two values.
    pub open spec fn plus(self, x: DoubleModel) -> DoubleModel {
        self.exact_sum(x).rounded()
    }

    /// The difference of two values.
    pub open spec fn minus(self, x: DoubleModel) -> DoubleModel {
        self.plus(x.negated())
    }

    /// The product of two values.
    pub open spec fn times(self, x: DoubleModel) -> DoubleModel {
        self.exact_product(x).rounded()
    }

    /// The quotient of a value and a positive one.
    pub open spec fn over(self, x: DoubleModel) -> DoubleModel {
        self.exact_quotient(x).rounded()
    }

    /// The value is between `-b` and `b`.
    pub open spec fn within(self, b: int) -> bool {
        -(b * self.unit) <= self.num <= b * self.unit
    }
}

/// What is known of a rounded quotient.
pub(crate) proof fn lemma_half_even(n: int, d: int)
    requires
        0 <= n,
        0 < d,
    ensures
        n / d <= half_even(n, d) <= n / d + 1,
        -d <= 2 * half_even(n, d) * d - 2 * n <= d,
        n % d == 0 ==> half_even(n, d) == n / d,
        0 <= half_even(n, d),
{
    vstd::arithmetic::div_mod::lemma_fundamental_div_mod(n, d);
    vstd::arithmetic::div_mod::lemma_div_pos_is_pos(n, d);
    let (q, h) = (n / d, half_even(n, d));
    assert(2 * h * d == 2 * (d * q) + 2 * (h - q) * d) by (nonlinear_arith);
    assert((h - q) * d == if h == q {
        0
    } else {
        d
    }) by (nonlinear_arith)
        requires
            h == q || h == q + 1,
    ;
    assert(2 * (h - q) * d == 2 * ((h - q) * d)) by (nonlinear_arith);
}

/// A quotient that is at most an integer is not rounded above it.
pub(crate) proof fn lemma_not_above(n: int, d: int, b: int)
    requires
        0 <= n <= b * d,
        0 < d,
    ensures
        half_even(n, d) <= b,
{
    vstd::arithmetic::div_mod::lemma_fundamental_div_mod(n, d);
    let q = n / d;
    assert(q <= b) by (nonlinear_arith)
        requires
            d * q + n % d == n,
            0 <= n % d,
            n <= b * d,
            0 < d,
    ;
    if q == b {
        assert(n % d <= 0) by (nonlinear_arith)
            requires
                d * q + n % d == n,
                n <= b * d,
                q == b,
        ;
    }
}

/// A quotient that is at least an integer is not rounded below it.
pub(crate) proof fn lemma_not_below(n: int, d: int, b: int)
    requires
        0 <= b * d <= n,
        0 < d,
    ensures
        b <= n / d,
        b <= half_even(n, d),
{
    vstd::arithmetic::div_mod::lemma_fundamental_div_mod(n, d);
    let q = n / d;
    assert(b <= q) by (nonlinear_arith)
        requires
            d * q + n % d == n,
            n % d < d,
            b * d <= n,
            0 < d,
    ;
}

/// The unit brings the quotient into the range of significands.
pub(crate) proof fn lemma_unit(n: nat, d: nat)
    requires
        1 <= n < 2 * (d * LEAST),
        1 <= d,
    ensures
        1 <= unit(n, d),
        d * LEAST <= n * unit(n, d) < 2 * (d * LEAST),
        n < d * LEAST ==> 2 <= unit(n, d),
    decreases
            (if n < d * LEAST {
                d * LEAST - n
            } else {
                0
            }),
{
    if n < d * LEAST {
        lemma_unit(2 * n, d);
        let u = unit(2 * n, d);
        assert((2 * n) * u == n * (2 * u)) by (nonlinear_arith);
    } else {
        assert(n * 1 == n);
    }
}

/// A double is a significand over its unit.
pub(crate) proof fn lemma_double(n: nat, d: nat)
    requires
        1 <= n < 2 * (d * LEAST),
        1 <= d,
    ensures
        LEAST <= double_of(n, d).0 <= 2 * LEAST,
        1 <= double_of(n, d).1,
{
    lemma_unit(n, d);
    let t = n * unit(n, d);
    assert(t <= (2 * LEAST) * d) by (nonlinear_arith)
        requires
            t < 2 * (d * LEAST),
    ;
    assert(LEAST * d <= t) by (nonlinear_arith)
        requires
            d * LEAST <= t,
    ;
    lemma_not_above(t as int, d as int, 2 * LEAST as int);
    lemma_not_below(t as int, d as int, LEAST as int);
}

/// Doubling both parts of a quotient changes nothing.
pub(crate) proof fn lemma_half_even_scale(n: int, d: int, c: int)
    requires
        0 <= n,
        0 < d,
        0 < c,
    ensures
        half_even(c * n, c * d) == half_even(n, d),
{
    vstd::arithmetic::div_mod::lemma_div_multiples_vanish_quotient(c, n, d);
    vstd::arithmetic::div_mod::lemma_truncate_middle(n, c, d);
    let r = n % d;
    assert(2 * (c * r) > c * d <==> 2 * r > d) by (nonlinear_arith)
        requires
            0 < c,
    ;
    assert(2 * (c * r) == c * d <==> 2 * r == d) by (nonlinear_arith)
        requires
            0 < c,
    ;
}

/// The unit is the one power of two that brings the quotient into the range of
/// significands.
pub(crate) proof fn lemma_unit_is(n: nat, d: nat, k: nat)
    requires
        1 <= n,
        1 <= d,
        d * LEAST <= n * pow2(k) < 2 * (d * LEAST),
    ensures
        unit(n, d) == pow2(k),
    decreases k,
{
    lemma2_to64();
    if k == 0 {
        assert(n * pow2(k) == n) by (nonlinear_arith)
            requires
                pow2(k) == 1,
        ;
    } else {
        lemma_pow2_unfold(k);
        let h = pow2((k - 1) as nat);
        lemma_pow2_pos((k - 1) as nat);
        assert(n * (2 * h) == (2 * n) * h) by (nonlinear_arith);
        assert(2 * n <= (2 * n) * h) by (nonlinear_arith)
            requires
                1 <= h,
        ;
        lemma_unit_is(2 * n, d, (k - 1) as nat);
    }
}

/// The double nearest to a fraction does not depend on how it is written.
pub(crate) proof fn lemma_unit_scale(n: nat, d: nat, c: nat)
    requires
        1 <= n,
        1 <= d,
        1 <= c,
    ensures
        unit(c * n, c * d) == unit(n, d),
    decreases
            (if n < d * LEAST {
                d * LEAST - n
            } else {
                0
            }),
{
    assert(c * n < (c * d) * LEAST <==> n < d * LEAST) by (nonlinear_arith)
        requires
            1 <= c,
    ;
    assert(1 <= c * n) by (nonlinear_arith)
        requires
            1 <= c,
            1 <= n,
    ;
    if n < d * LEAST {
        lemma_unit_scale(2 * n, d, c);
        assert(c * (2 * n) == 2 * (c * n)) by (nonlinear_arith);
    }
}

pub(crate) proof fn lemma_near_scale(n: int, d: nat, c: nat)
    requires
        1 <= d,
        1 <= c,
    ensures
        near(c * n, c * d) == near(n, d),
{
    let a: nat = if n < 0 {
        (-n) as nat
    } else {
        n as nat
    };
    assert(c * n == 0 <==> n == 0) by (nonlinear_arith)
        requires
            1 <= c,
    ;
    assert(c * n > 0 <==> n > 0) by (nonlinear_arith)
        requires
            1 <= c,
    ;
    assert(c * (-n) == -(c * n)) by (nonlinear_arith);
    if n != 0 {
        lemma_unit_scale(a, d, c);
        let u = unit(a, d);
        assert((c * a) * u == c * (a * u)) by (nonlinear_arith);
        lemma_half_even_scale((a * u) as int, d as int, c as int);
    }
}

/// Of what is far below a half only its presence counts: a rounded quotient does not
/// change when the remainder `r` of `c * q + r` is replaced by one bit.
proof fn lemma_half_even_sticky(c: int, q: int, r: int, d: int)
    requires
        0 <= r < c,
        0 <= q,
        2 <= d,
        d % 2 == 0,
    ensures
        half_even(c * q + r, c * d) == half_even(
            2 * q + (if r > 0 {
                1int
            } else {
                0
            }),
            2 * d,
        ),
{
    let bit: int = if r > 0 {
        1
    } else {
        0
    };
    let (k, x) = (q / d, q % d);
    vstd::arithmetic::div_mod::lemma_fundamental_div_mod(q, d);
    assert(c * q + r == k * (c * d) + (c * x + r)) by (nonlinear_arith)
        requires
            q == d * k + x,
    ;
    assert(0 <= c * x + r < c * d && 0 < c * d) by (nonlinear_arith)
        requires
            0 <= x < d,
            0 <= r < c,
    ;
    assert(2 * q + bit == k * (2 * d) + (2 * x + bit)) by (nonlinear_arith)
        requires
            q == d * k + x,
    ;
    vstd::arithmetic::div_mod::lemma_fundamental_div_mod_converse(c * q + r, c * d, k, c * x + r);
    vstd::arithmetic::div_mod::lemma_fundamental_div_mod_converse(2 * q + bit, 2 * d, k, 2 * x + bit);
    let g = 2 * x - d;
    assert(2 * (c * x + r) - c * d == c * g + 2 * r) by (nonlinear_arith)
        requires
            g == 2 * x - d,
    ;
    if g <= -2 {
        assert(c * g <= -2 * c) by (nonlinear_arith)
            requires
                g <= -2,
                0 < c,
        ;
    } else if g > 0 {
        assert(c * g > 0) by (nonlinear_arith)
            requires
                g > 0,
                0 < c,
        ;
    } else {
        assert(c * g == 0) by (nonlinear_arith)
            requires
                g == 0,
        ;
    }
}

/// How far a number is above the range of significands.
proof fn lemma_scale(n: nat) -> (s: nat)
    requires
        LEAST <= n,
    ensures
        pow2(s) * LEAST <= n < 2 * (pow2(s) * LEAST),
    decreases n,
{
    lemma2_to64();
    if n < 2 * LEAST {
        0
    } else {
        let s = lemma_scale(n / 2);
        lemma_pow2_unfold(s + 1);
        assert(pow2(s + 1) * LEAST == 2 * (pow2(s) * LEAST)) by (nonlinear_arith)
            requires
                pow2(s + 1) == 2 * pow2(s),
        ;
        s + 1
    }
}

/// The double of a large number does not change when all that is left of its low
/// `j` bits is whether one is set.
#[verifier::rlimit(50)]
proof fn lemma_double_sticky(n: nat, e: nat, j: nat, q: nat, r: nat)
    requires
        n == pow2(j) * q + r,
        r < pow2(j),
        4 * LEAST <= q,
        n < 2 * (pow2(e) * LEAST),
        j <= e,
    ensures
        double_of(n, pow2(e)) == double_of(
            2 * q + (if r > 0 {
                1nat
            } else {
                0
            }),
            pow2((e - j + 1) as nat),
        ),
{
    let bit: nat = if r > 0 {
        1
    } else {
        0
    };
    let c = pow2(j);
    let t = 2 * q + bit;
    lemma_pow2_pos(j);
    assert(c * (4 * LEAST) <= n) by (nonlinear_arith)
        requires
            n == c * q + r,
            4 * LEAST <= q,
            0 <= r,
            1 <= c,
    ;
    assert(LEAST <= c * (4 * LEAST)) by (nonlinear_arith)
        requires
            1 <= c,
    ;
    let s = lemma_scale(n);
    if s < j + 2 {
        lemma_pow2_ordered(s, j + 1);
        lemma_pow2_unfold(j + 1);
        assert(2 * (pow2(s) * LEAST) <= c * (4 * LEAST)) by (nonlinear_arith)
            requires
                pow2(s) <= 2 * c,
        ;
    }
    if s > e {
        lemma_pow2_ordered(e + 1, s);
        lemma_pow2_unfold(e + 1);
        assert(2 * (pow2(e) * LEAST) <= pow2(s) * LEAST) by (nonlinear_arith)
            requires
                2 * pow2(e) <= pow2(s),
        ;
    }
    let (h, d) = (pow2((e - s) as nat), pow2((s - j) as nat));
    lemma_pow2_adds((e - s) as nat, s);
    lemma_pow2_adds(j, (s - j) as nat);
    lemma_pow2_pos((e - s) as nat);
    lemma_pow2_unfold((s - j) as nat);
    lemma_pow2_pos((s - j - 1) as nat);
    lemma_pow2_unfold((s - j + 1) as nat);
    lemma_pow2_adds((e - s) as nat, (s - j + 1) as nat);
    assert(pow2(e) * LEAST <= n * h < 2 * (pow2(e) * LEAST)) by (nonlinear_arith)
        requires
            pow2(s) * LEAST <= n < 2 * (pow2(s) * LEAST),
            pow2(e) == h * pow2(s),
            1 <= h,
    ;
    assert(d * LEAST <= q < 2 * (d * LEAST)) by (nonlinear_arith)
        requires
            (c * d) * LEAST <= n < 2 * ((c * d) * LEAST),
            n == c * q + r,
            0 <= r < c,
    ;
    let f = pow2((e - j + 1) as nat);
    assert(f * LEAST <= t * h < 2 * (f * LEAST)) by (nonlinear_arith)
        requires
            d * LEAST <= q < 2 * (d * LEAST),
            2 * q <= t <= 2 * q + 1,
            f == h * (2 * d),
            1 <= h,
    ;
    lemma_unit_is(n, pow2(e), (e - s) as nat);
    lemma_unit_is(t, f, (e - s) as nat);
    assert(n * h == h * n && t * h == h * t) by (nonlinear_arith);
    lemma_half_even_scale(n as int, (c * d) as int, h as int);
    lemma_half_even_scale(t as int, (2 * d) as int, h as int);
    lemma_half_even_sticky(c as int, q as int, r as int, d as int);
}

/// [`lemma_double_sticky`] for numbers of either sign.
proof fn lemma_near_sticky(n: int, e: nat, j: nat, q: int, r: int)
    requires
        n == pow2(j) * q + r,
        0 <= r < pow2(j),
        4 * LEAST < q || q < -4 * LEAST,
        -(2 * (pow2(e) * LEAST)) < n < 2 * (pow2(e) * LEAST),
        j <= e,
    ensures
        near(n, pow2(e)) == near(
            2 * q + (if r > 0 {
                1int
            } else {
                0
            }),
            pow2((e - j + 1) as nat),
        ),
{
    let c = pow2(j) as int;
    lemma_pow2_pos(j);
    if q > 0 {
        assert(n > 0) by (nonlinear_arith)
            requires
                n == c * q + r,
                q > 0,
                c > 0,
                r >= 0,
        ;
        lemma_double_sticky(n as nat, e, j, q as nat, r as nat);
    } else {
        let (a, b) = if r == 0 {
            (-q, 0int)
        } else {
            (-q - 1, c - r)
        };
        assert(-n == c * a + b) by (nonlinear_arith)
            requires
                n == c * q + r,
                (r == 0 && a == -q && b == 0) || (a == -q - 1 && b == c - r),
        ;
        assert(c * a >= 1) by (nonlinear_arith)
            requires
                a >= 1,
                c >= 1,
        ;
        lemma_double_sticky((-n) as nat, e, j, a as nat, b as nat);
    }
}

/// A value in double precision.
#[derive(Clone, Copy, Debug)]
pub struct Double {
    /// The numerator.
    pub m: i128,
    /// The exponent of the denominator.
    pub e: u32,
}

impl View for Double {
    type V = DoubleModel;

    open spec fn view(&self) -> DoubleModel {
        DoubleModel { num: self.m as int, unit: pow2(self.e as nat) }
    }
}

/// The largest numerator, `2^53`.
pub const MOST: i128 = 0x20_0000_0000_0000;

/// Two to the power of `e`.
pub(crate) fn power(e: u32) -> (r: u128)
    requires
        e <= 126,
    ensures
        r == pow2(e as nat),
        1 <= r,
{
    let a: u64 = if e < 63 {
        e as u64
    } else {
        63
    };
    let b: u64 = e as u64 - a;
    proof {
        lemma2_to64();
        lemma2_to64_rest();
        lemma_pow2_adds(a as nat, b as nat);
        lemma_pow2_pos(e as nat);
        if a < 63 {
            lemma_pow2_strictly_increases(a as nat, 63);
        }
        if b < 63 {
            lemma_pow2_strictly_increases(b as nat, 63);
        }
        vstd::bits::lemma_u64_shl_is_mul(1, a);
        vstd::bits::lemma_u64_shl_is_mul(1, b);
        assert(pow2(a as nat) * pow2(b as nat) <= 0x8000_0000_0000_0000 * 0x8000_0000_0000_0000)
            by (nonlinear_arith)
            requires
                0 <= pow2(a as nat) <= 0x8000_0000_0000_0000,
                0 <= pow2(b as nat) <= 0x8000_0000_0000_0000,
        ;
    }
    ((1u64 << a) as u128) * ((1u64 << b) as u128)
}

/// The place of the highest bit.
fn log2(a: u128) -> (k: u32)
    requires
        1 <= a < pow2(126),
    ensures
        pow2(k as nat) <= a < pow2((k + 1) as nat),
        k < 126,
{
    let mut low: u32 = 0;
    let mut high: u32 = 126;
    proof {
        lemma2_to64();
    }
    while high - low > 1
        invariant
            low < high <= 126,
            pow2(low as nat) <= a < pow2(high as nat),
        decreases high - low,
    {
        let mid: u32 = (low + high) / 2;
        if a < power(mid) {
            high = mid;
        } else {
            low = mid;
        }
    }
    low
}

/// Powers of two in order.
proof fn lemma_pow2_ordered(a: nat, b: nat)
    requires
        a <= b,
    ensures
        pow2(a) <= pow2(b),
{
    if a < b {
        lemma_pow2_strictly_increases(a, b);
    }
}

/// The double nearest to `a / 2^e`.
#[verifier::rlimit(30)]
fn nearest(a: u128, e: u32) -> (r: (u128, u32))
    requires
        1 <= a < pow2(126),
        a < 2 * (pow2(e as nat) * LEAST),
        e <= 0x1000_0000,
    ensures
        (r.0 as nat, pow2(r.1 as nat)) == double_of(a as nat, pow2(e as nat)),
        LEAST <= r.0 <= 2 * LEAST,
        r.1 <= e + 52,
{
    let k: u32 = log2(a);
    let ghost d = pow2(e as nat);
    proof {
        lemma2_to64_rest();
        lemma_pow2_pos(e as nat);
        lemma_double(a as nat, d);
    }
    if k <= 52 {
        let s: u32 = 52 - k;
        let p: u128 = power(s);
        proof {
            lemma_pow2_adds(k as nat, s as nat);
            lemma_pow2_adds((k + 1) as nat, s as nat);
            assert(pow2(k as nat) * p <= a * p < pow2((k + 1) as nat) * p) by (nonlinear_arith)
                requires
                    pow2(k as nat) <= a < pow2((k + 1) as nat),
                    1 <= p,
            ;
            lemma_pow2_unfold(53);
        }
        let t: u128 = a * p;
        proof {
            lemma_pow2_adds(e as nat, s as nat);
            assert(a * (d * p) == d * t) by (nonlinear_arith)
                requires
                    t == a * p,
            ;
            assert(d * LEAST <= d * t < 2 * (d * LEAST)) by (nonlinear_arith)
                requires
                    LEAST <= t < 2 * LEAST,
                    1 <= d,
            ;
            lemma_unit_is(a as nat, d, (e + s) as nat);
            lemma_half_even_scale(t as int, 1, d as int);
        }
        (t, e + s)
    } else {
        let s: u32 = k - 52;
        let w: u128 = power(s);
        proof {
            lemma_pow2_adds(s as nat, 52);
            lemma_pow2_adds((s + 1) as nat, 52);
            lemma_pow2_unfold((s + 1) as nat);
            assert(w * LEAST <= a < 2 * (w * LEAST)) by (nonlinear_arith)
                requires
                    w * pow2(52) <= a < (2 * w) * pow2(52),
                    pow2(52) == LEAST,
            ;
            if s > e {
                lemma_pow2_unfold(s as nat);
                lemma_pow2_ordered(e as nat, (s - 1) as nat);
                assert(2 * (d * LEAST) <= w * LEAST) by (nonlinear_arith)
                    requires
                        2 * d <= w,
                ;
            }
            let h = pow2((e - s) as nat);
            lemma_pow2_adds((e - s) as nat, s as nat);
            lemma_pow2_pos((e - s) as nat);
            assert(d == h * w);
            assert(d * LEAST <= a * h < 2 * (d * LEAST)) by (nonlinear_arith)
                requires
                    w * LEAST <= a < 2 * (w * LEAST),
                    d == h * w,
                    1 <= h,
            ;
            assert(a * h == h * a) by (nonlinear_arith);
            lemma_unit_is(a as nat, d, (e - s) as nat);
            lemma_half_even_scale(a as int, w as int, h as int);
        }
        let (q, r): (u128, u128) = (a / w, a % w);
        if 2 * r > w || (2 * r == w && q % 2 == 1) {
            (q + 1, e - s)
        } else {
            (q, e - s)
        }
    }
}

/// `m / 2^j` rounded down, and whether anything is left.
fn floor_div(m: i128, j: u32) -> (r: (i128, bool))
    requires
        -MOST <= m <= MOST,
    ensures
        0 <= m - pow2(j as nat) * r.0 < pow2(j as nat),
        r.1 == (m - pow2(j as nat) * r.0 > 0),
        -MOST <= r.0 <= MOST,
{
    let ghost w = pow2(j as nat);
    proof {
        lemma_pow2_pos(j as nat);
        lemma2_to64_rest();
    }
    if j > 54 {
        proof {
            lemma_pow2_ordered(54, j as nat);
            assert(w * (-1) == -w && w * 0 == 0) by (nonlinear_arith);
        }
        return (
            if m < 0 {
                -1
            } else {
                0
            },
            m != 0,
        );
    }
    let p: u128 = power(j);
    if m >= 0 {
        let a: u128 = m as u128;
        let q: u128 = a / p;
        proof {
            vstd::arithmetic::div_mod::lemma_fundamental_div_mod(a as int, p as int);
            assert(0 <= q <= a) by (nonlinear_arith)
                requires
                    q == a as int / p as int,
                    p >= 1,
                    a >= 0,
            ;
        }
        (q as i128, a % p != 0)
    } else {
        let a: u128 = (-m) as u128;
        let (q, r): (u128, u128) = (a / p, a % p);
        proof {
            vstd::arithmetic::div_mod::lemma_fundamental_div_mod(a as int, p as int);
            assert(0 <= q <= a) by (nonlinear_arith)
                requires
                    q == a as int / p as int,
                    p >= 1,
                    a >= 0,
            ;
            assert(p * (-q) == -(p * q)) by (nonlinear_arith);
            assert(p * (-q - 1) == -(p * q) - p) by (nonlinear_arith);
            if r != 0 && q == a {
                assert(p * q >= q) by (nonlinear_arith)
                    requires
                        p >= 1,
                        q >= 0,
                ;
            }
        }
        if r == 0 {
            (-(q as i128), false)
        } else {
            (-(q as i128) - 1, true)
        }
    }
}

impl Double {
    /// A small integer.
    pub fn whole(n: u64) -> (r: Double)
        requires
            n <= MOST,
        ensures
            r@ == DoubleModel::whole(n as int),
            r.e == 0,
            0 <= r.m <= MOST,
    {
        proof {
            lemma2_to64();
        }
        Double { m: n as i128, e: 0 }
    }

    /// The double nearest to `n / 2^e`.
    fn near(n: i128, e: u32) -> (r: Double)
        requires
            -pow2(126) < n < pow2(126),
            -(2 * (pow2(e as nat) * LEAST)) < n < 2 * (pow2(e as nat) * LEAST),
            e <= 0x1000_0000,
        ensures
            r@ == near(n as int, pow2(e as nat)),
            -MOST <= r.m <= MOST,
            r.e <= e + 52,
    {
        if n == 0 {
            proof {
                lemma2_to64();
            }
            Double { m: 0, e: 0 }
        } else if n > 0 {
            let (m, k) = nearest(n as u128, e);
            Double { m: m as i128, e: k }
        } else {
            proof {
                lemma2_to64_rest();
                lemma_pow2_adds(63, 63);
            }
            let (m, k) = nearest((-n) as u128, e);
            Double { m: -(m as i128), e: k }
        }
    }

    /// The product of two values.
    pub fn times(self, x: Double) -> (r: Double)
        requires
            -MOST <= self.m <= MOST,
            -MOST <= x.m <= MOST,
            self.e <= 0x100_0000,
            x.e <= 0x100_0000,
            self@.exact_product(x@).within(LEAST as int),
        ensures
            r@ == self@.times(x@),
            -MOST <= r.m <= MOST,
            r.e <= self.e + x.e + 52,
    {
        proof {
            assert(-(MOST * MOST) <= self.m * x.m <= MOST * MOST) by (nonlinear_arith)
                requires
                    -MOST <= self.m <= MOST,
                    -MOST <= x.m <= MOST,
            ;
            lemma2_to64_rest();
            lemma_pow2_adds(63, 63);
            lemma_pow2_adds(self.e as nat, x.e as nat);
            lemma_pow2_pos((self.e + x.e) as nat);
            let d = pow2((self.e + x.e) as nat);
            assert(LEAST * d < 2 * (d * LEAST)) by (nonlinear_arith)
                requires
                    1 <= d,
                    LEAST == 0x10_0000_0000_0000,
            ;
        }
        Double::near(self.m * x.m, self.e + x.e)
    }

    /// The sum of two values.
    #[verifier::rlimit(50)]
    pub fn plus(self, x: Double) -> (r: Double)
        requires
            -MOST <= self.m <= MOST,
            -MOST <= x.m <= MOST,
            self.e <= 0x100_0000,
            x.e <= 0x100_0000,
            self@.exact_sum(x@).within(LEAST as int),
        ensures
            r@ == self@.plus(x@),
            -MOST <= r.m <= MOST,
            r.e <= self.e + x.e + 120,
    {
        let (f, c): (Double, Double) = if self.e >= x.e {
            (self, x)
        } else {
            (x, self)
        };
        let gap: u32 = f.e - c.e;
        let ghost (uf, uc, ug) = (pow2(f.e as nat), pow2(c.e as nat), pow2(gap as nat));
        let ghost n = f.m + c.m * ug;
        proof {
            lemma_pow2_pos(f.e as nat);
            lemma_pow2_pos(c.e as nat);
            lemma_pow2_pos(gap as nat);
            lemma_pow2_adds(c.e as nat, gap as nat);
            let total = self@.exact_sum(x@);
            assert(uf * uc == uc * uf) by (nonlinear_arith);
            assert(total.num == uc * n && total.unit == uc * uf) by (nonlinear_arith)
                requires
                    total.num == f.m * uc + c.m * uf,
                    total.unit == uf * uc,
                    uf == uc * ug,
                    n == f.m + c.m * ug,
            ;
            lemma_near_scale(n, uf, uc);
            assert(-(uf * LEAST) <= n <= uf * LEAST) by (nonlinear_arith)
                requires
                    -(LEAST * (uc * uf)) <= uc * n <= LEAST * (uc * uf),
                    1 <= uc,
            ;
            assert(uf * LEAST >= 1) by (nonlinear_arith)
                requires
                    uf >= 1,
                    LEAST >= 1,
            ;
            lemma2_to64();
            lemma2_to64_rest();
            lemma_pow2_adds(63, 63);
        }
        if c.m == 0 {
            assert(n == f.m) by (nonlinear_arith)
                requires
                    n == f.m + c.m * ug,
                    c.m == 0,
            ;
            return Double::near(f.m, f.e);
        }
        if gap <= 70 {
            proof {
                lemma_pow2_ordered(gap as nat, 70);
                lemma_pow2_adds(64, 6);
                assert(-(MOST * pow2(70)) <= c.m * ug <= MOST * pow2(70)) by (nonlinear_arith)
                    requires
                        -MOST <= c.m <= MOST,
                        1 <= ug <= pow2(70),
                ;
            }
            let p: i128 = power(gap) as i128;
            return Double::near(f.m + c.m * p, f.e);
        }
        // The finer value is below half a step of the coarser one: of its last bits it
        // matters only whether there are any.
        let j: u32 = gap - 64;
        let ghost w = pow2(j as nat);
        proof {
            lemma_pow2_adds(64, j as nat);
        }
        let (q, rest): (i128, bool) = floor_div(f.m, j);
        let t: i128 = 2 * (c.m * 0x1_0000_0000_0000_0000 + q) + if rest {
            1
        } else {
            0
        };
        proof {
            let top = c.m * 0x1_0000_0000_0000_0000 + q;
            let r = f.m - w * q;
            assert(n == w * top + r) by (nonlinear_arith)
                requires
                    n == f.m + c.m * ug,
                    ug == 0x1_0000_0000_0000_0000 * w,
                    top == c.m * 0x1_0000_0000_0000_0000 + q,
                    r == f.m - w * q,
            ;
            lemma_near_sticky(n, f.e as nat, j as nat, top, r);
            let v = pow2((c.e + 64) as nat);
            lemma_pow2_adds(j as nat, (c.e + 64) as nat);
            lemma_pow2_unfold((c.e + 65) as nat);
            lemma_pow2_pos((c.e + 64) as nat);
            assert(-(v * LEAST) - 1 <= top <= v * LEAST) by (nonlinear_arith)
                requires
                    -((w * v) * LEAST) <= w * top + r <= (w * v) * LEAST,
                    0 <= r < w,
            ;
            assert(v * LEAST >= 16) by (nonlinear_arith)
                requires
                    v >= 1,
                    LEAST == 0x10_0000_0000_0000,
            ;
            assert((2 * v) * LEAST == 2 * (v * LEAST)) by (nonlinear_arith);
        }
        Double::near(t, c.e + 65)
    }

    /// The difference of two values.
    pub fn minus(self, x: Double) -> (r: Double)
        requires
            -MOST <= self.m <= MOST,
            -MOST <= x.m <= MOST,
            self.e <= 0x100_0000,
            x.e <= 0x100_0000,
            self@.exact_sum(x@.negated()).within(LEAST as int),
        ensures
            r@ == self@.minus(x@),
            -MOST <= r.m <= MOST,
            r.e <= self.e + x.e + 120,
    {
        self.plus(Double { m: -x.m, e: x.e })
    }

    /// The quotient of a value and a positive one.
    #[verifier::rlimit(50)]
    pub fn over(self, x: Double) -> (r: Double)
        requires
            -MOST <= self.m <= MOST,
            2 <= x.m <= MOST,
            self.e <= 0x100_0000,
            x.e <= 0x100_0000,
            self@.exact_quotient(x@).within(LEAST as int),
        ensures
            r@ == self@.over(x@),
            -MOST <= r.m <= MOST,
            r.e <= self.e + 108,
    {
        if self.m == 0 {
            proof {
                lemma2_to64();
                assert(self@.num * x@.unit == 0) by (nonlinear_arith)
                    requires
                        self@.num == 0,
                ;
            }
            return Double { m: 0, e: 0 };
        }
        let t: u128 = if self.m < 0 {
            (-self.m) as u128
        } else {
            self.m as u128
        };
        let b: u128 = x.m as u128;
        proof {
            lemma2_to64_rest();
            lemma2_to64();
            lemma_pow2_adds(63, 63);
            lemma_pow2_adds(54, 72);
            lemma_pow2_unfold(54);
            lemma_pow2_ordered(0, 72);
        }
        let (kt, kb): (u32, u32) = (log2(t), log2(b));
        proof {
            if kt > 53 {
                lemma_pow2_ordered(54, kt as nat);
            }
            if kb > 53 {
                lemma_pow2_ordered(54, kb as nat);
            }
            if kb < 1 {
                lemma_pow2_ordered((kb + 1) as nat, 1);
            }
        }
        let k: u32 = 52 + kb - kt;
        let p: u128 = power(k);
        proof {
            let (lo, hi) = (pow2((52 + kb) as nat), pow2((53 + kb) as nat));
            lemma_pow2_adds(kt as nat, k as nat);
            lemma_pow2_adds((kt + 1) as nat, k as nat);
            lemma_pow2_adds(kb as nat, 52);
            lemma_pow2_adds((kb + 1) as nat, 52);
            assert(lo <= t * p < hi) by (nonlinear_arith)
                requires
                    pow2(kt as nat) <= t < pow2((kt + 1) as nat),
                    lo == pow2(kt as nat) * p,
                    hi == pow2((kt + 1) as nat) * p,
                    1 <= p,
            ;
            assert(lo <= b * LEAST < hi) by (nonlinear_arith)
                requires
                    pow2(kb as nat) <= b < pow2((kb + 1) as nat),
                    lo == pow2(kb as nat) * LEAST,
                    hi == pow2((kb + 1) as nat) * LEAST,
                    LEAST == 0x10_0000_0000_0000,
            ;
            lemma_pow2_unfold((53 + kb) as nat);
            lemma_pow2_ordered((53 + kb) as nat, 107);
            lemma_pow2_adds(53, 54);
        }
        let low: bool = t * p < b * LEAST;
        let (s, k): (u128, u32) = if low {
            (2 * (t * p), k + 1)
        } else {
            (t * p, k)
        };
        proof {
            lemma_pow2_unfold((52 + kb - kt + 1) as nat);
            assert(s == t * pow2(k as nat)) by (nonlinear_arith)
                requires
                    low ==> s == 2 * (t * p) && pow2(k as nat) == 2 * p,
                    !low ==> s == t * p && pow2(k as nat) == p,
            ;
            let n = t * pow2(x.e as nat);
            let a = pow2(self.e as nat);
            let d = a * b;
            lemma_pow2_pos(self.e as nat);
            lemma_pow2_pos(x.e as nat);
            lemma_pow2_pos(k as nat);
            assert(1 <= n && 1 <= d) by (nonlinear_arith)
                requires
                    n == t * pow2(x.e as nat),
                    d == a * b,
                    1 <= t,
                    1 <= pow2(x.e as nat),
                    1 <= a,
                    1 <= b,
            ;
            assert(n <= d * LEAST) by (nonlinear_arith)
                requires
                    -(LEAST * d) <= self.m * pow2(x.e as nat) <= LEAST * d,
                    n == t * pow2(x.e as nat),
                    t == self.m || t == -self.m,
            ;
            lemma_pow2_adds(self.e as nat, k as nat);
            assert(n <= pow2((self.e + k) as nat) * t) by (nonlinear_arith)
                requires
                    n <= d * LEAST,
                    d == a * b,
                    b * LEAST <= t * pow2(k as nat),
                    pow2((self.e + k) as nat) == a * pow2(k as nat),
                    1 <= a,
            ;
            if x.e > self.e + k {
                lemma_pow2_strictly_increases((self.e + k) as nat, x.e as nat);
                assert(pow2((self.e + k) as nat) * t < t * pow2(x.e as nat)) by (nonlinear_arith)
                    requires
                        1 <= t,
                        pow2((self.e + k) as nat) < pow2(x.e as nat),
                ;
            }
            let j = (self.e + k - x.e) as nat;
            lemma_pow2_adds(j, x.e as nat);
            assert(n * pow2(j) == a * s) by (nonlinear_arith)
                requires
                    n == t * pow2(x.e as nat),
                    pow2(j) * pow2(x.e as nat) == a * pow2(k as nat),
                    s == t * pow2(k as nat),
            ;
            assert(d * LEAST <= a * s < 2 * (d * LEAST)) by (nonlinear_arith)
                requires
                    d == a * b,
                    b * LEAST <= s < 2 * (b * LEAST),
                    1 <= a,
            ;
            lemma_unit_is(n as nat, d as nat, j);
            lemma_half_even_scale(s as int, b as int, a as int);
            lemma_double(n as nat, d as nat);
            if self.m > 0 {
                assert(self@.num * x@.unit == n);
            } else {
                assert(self@.num * x@.unit == -n) by (nonlinear_arith)
                    requires
                        n == t * pow2(x.e as nat),
                        self@.num == -t,
                        x@.unit == pow2(x.e as nat),
                ;
            }
        }
        let (q, r): (u128, u128) = (s / b, s % b);
        let m: u128 = if 2 * r > b || (2 * r == b && q % 2 == 1) {
            q + 1
        } else {
            q
        };
        Double {
            m: if self.m < 0 {
                -(m as i128)
            } else {
                m as i128
            },
            e: self.e + k - x.e,
        }
    }
}

/// A unit is positive, and even where it is not one.
pub(crate) proof fn lemma_unit_even(n: nat, d: nat)
    requires
        1 <= n,
    ensures
        1 <= unit(n, d),
        n < d * LEAST ==> unit(n, d) % 2 == 0,
    decreases
            (if n < d * LEAST {
                d * LEAST - n
            } else {
                0
            }),
{
    if n < d * LEAST {
        lemma_unit_even(2 * n, d);
    }
}

/// The double nearest to a fraction is within the integers that the fraction is
/// within.
pub(crate) proof fn lemma_near_within(n: int, d: nat, b: int)
    requires
        -(b * d) <= n <= b * d,
        1 <= d,
        0 <= b <= LEAST,
    ensures
        near(n, d).within(b),
        1 <= near(n, d).unit,
        n >= 0 ==> near(n, d).num >= 0,
{
    let a: nat = if n < 0 {
        (-n) as nat
    } else {
        n as nat
    };
    if n != 0 {
        lemma_unit_even(a, d);
        let u = unit(a, d);
        assert(a * u <= (b * u) * d) by (nonlinear_arith)
            requires
                a <= b * d,
        ;
        assert(0 <= a * u) by (nonlinear_arith);
        lemma_not_above((a * u) as int, d as int, b * u);
        lemma_half_even((a * u) as int, d as int);
    } else {
        assert(b * 1 == b) by (nonlinear_arith);
    }
}

/// The double nearest to a fraction of at most, or at least, a half is so too.
pub(crate) proof fn lemma_near_half(n: int, d: nat)
    requires
        1 <= n < d * LEAST,
        1 <= d,
    ensures
        2 * n <= d ==> 2 * near(n, d).num <= near(n, d).unit,
        2 * n >= d ==> 2 * near(n, d).num >= near(n, d).unit,
{
    lemma_unit_even(n as nat, d);
    let u = unit(n as nat, d);
    let h = u / 2;
    if 2 * n <= d {
        assert(n * u <= h * d) by (nonlinear_arith)
            requires
                2 * n <= d,
                u == 2 * h,
        ;
        assert(0 <= n * u) by (nonlinear_arith)
            requires
                0 <= n,
        ;
        lemma_not_above(n * u, d as int, h as int);
    }
    if 2 * n >= d {
        assert(0 <= h * d <= n * u) by (nonlinear_arith)
            requires
                2 * n >= d,
                u == 2 * h,
        ;
        lemma_not_below(n * u, d as int, h as int);
    }
}

/// A sum is within the sum of the bounds.
pub(crate) proof fn lemma_plus_within(x: DoubleModel, y: DoubleModel, a: int, b: int)
    requires
        x.within(a),
        y.within(b),
        1 <= x.unit,
        1 <= y.unit,
        0 <= a,
        0 <= b,
        a + b <= LEAST,
    ensures
        x.exact_sum(y).within(LEAST as int),
        x.plus(y).within(a + b),
        1 <= x.plus(y).unit,
        x.num >= 0 && y.num >= 0 ==> x.plus(y).num >= 0,
{
    let t = x.exact_sum(y);
    let d = x.unit * y.unit;
    assert(-((a + b) * d) <= x.num * y.unit + y.num * x.unit <= (a + b) * d) by (nonlinear_arith)
        requires
            -(a * x.unit) <= x.num <= a * x.unit,
            -(b * y.unit) <= y.num <= b * y.unit,
            1 <= x.unit,
            1 <= y.unit,
            d == x.unit * y.unit,
    ;
    assert(1 <= d && (a + b) * d <= LEAST * d) by (nonlinear_arith)
        requires
            1 <= x.unit,
            1 <= y.unit,
            d == x.unit * y.unit,
            a + b <= LEAST,
    ;
    if x.num >= 0 && y.num >= 0 {
        assert(x.num * y.unit + y.num * x.unit >= 0) by (nonlinear_arith)
            requires
                x.num >= 0,
                y.num >= 0,
                1 <= x.unit,
                1 <= y.unit,
        ;
    }
    lemma_near_within(t.num, t.unit, a + b);
}

/// A product is within the product of the bounds.
pub(crate) proof fn lemma_times_within(x: DoubleModel, y: DoubleModel, a: int, b: int)
    requires
        x.within(a),
        y.within(b),
        1 <= x.unit,
        1 <= y.unit,
        0 <= a,
        0 <= b,
        a * b <= LEAST,
    ensures
        x.exact_product(y).within(LEAST as int),
        x.times(y).within(a * b),
        1 <= x.times(y).unit,
        x.num >= 0 && y.num >= 0 ==> x.times(y).num >= 0,
{
    let t = x.exact_product(y);
    let d = x.unit * y.unit;
    let (p, q) = (a * x.unit, b * y.unit);
    assert(-(p * q) <= x.num * y.num <= p * q) by (nonlinear_arith)
        requires
            -p <= x.num <= p,
            -q <= y.num <= q,
    ;
    assert(p * q == (a * b) * d) by (nonlinear_arith)
        requires
            p == a * x.unit,
            q == b * y.unit,
            d == x.unit * y.unit,
    ;
    assert(0 <= a * b) by (nonlinear_arith)
        requires
            0 <= a,
            0 <= b,
    ;
    assert(1 <= d && (a * b) * d <= LEAST * d) by (nonlinear_arith)
        requires
            1 <= x.unit,
            1 <= y.unit,
            d == x.unit * y.unit,
            a * b <= LEAST,
    ;
    if x.num >= 0 && y.num >= 0 {
        assert(x.num * y.num >= 0) by (nonlinear_arith)
            requires
                x.num >= 0,
                y.num >= 0,
        ;
    }
    lemma_near_within(t.num, t.unit, a * b);
}

/// What is divided by one or more stays within its bound.
pub(crate) proof fn lemma_over_within(x: DoubleModel, y: DoubleModel, a: int)
    requires
        x.within(a),
        1 <= x.unit,
        1 <= y.unit <= y.num,
        0 <= a <= LEAST,
    ensures
        x.exact_quotient(y).within(LEAST as int),
        x.over(y).within(a),
        1 <= x.over(y).unit,
{
    let t = x.exact_quotient(y);
    let d = x.unit * y.num;
    assert(-(a * d) <= x.num * y.unit <= a * d) by (nonlinear_arith)
        requires
            -(a * x.unit) <= x.num <= a * x.unit,
            1 <= x.unit,
            1 <= y.unit <= y.num,
            0 <= a,
            d == x.unit * y.num,
    ;
    assert(1 <= d && a * d <= LEAST * d) by (nonlinear_arith)
        requires
            1 <= x.unit,
            1 <= y.num,
            d == x.unit * y.num,
            a <= LEAST,
    ;
    lemma_near_within(t.num, t.unit, a);
}

} // verus!
