//! The size of a reduced picture. Its edges are quotients taken in double
//! precision ([`crate::double`]), which decides how a quotient half way between two
//! integers is rounded.
use crate::double::{
    double_of, lemma_double, lemma_half_even, lemma_not_above, lemma_not_below, lemma_unit, unit, LEAST,
};
use vstd::prelude::*;

verus! {

/// An edge of a reduced picture: `v` divided by the ratio of the longest edge to its
/// `limit`, both quotients in double precision, rounded to the nearest integer, a
/// half upwards, and at least one pixel.
pub open spec fn scaled_edge(v: nat, longest: nat, limit: nat) -> nat {
    let (m, u) = double_of(longest, limit);
    let (k, s) = double_of(v * u, m);
    let q = (2 * k + s) / (2 * s);
    if q < 1 {
        1
    } else {
        q
    }
}

/// The divisor of an edge and what is divided by it.
proof fn lemma_ratio(v: nat, longest: nat, limit: nat)
    requires
        1 <= v <= longest,
        1 <= limit < longest <= 0x4000_0000,
    ensures
        ({
            let (m, u) = double_of(longest, limit);
            &&& LEAST <= m <= 2 * LEAST
            &&& 1 <= u
            &&& 1 <= v * u <= longest * u
            &&& v * u <= v * m
            &&& 2 * (longest * u) <= 2 * (limit * m) + limit
            &&& 2 * (limit * m) <= 2 * (longest * u) + limit
            &&& v * u < m * LEAST
        }),
{
    assert(longest < 2 * (limit * LEAST)) by (nonlinear_arith)
        requires
            longest <= 0x4000_0000,
            1 <= limit,
            LEAST == 0x10_0000_0000_0000,
    ;
    lemma_double(longest, limit);
    lemma_unit(longest, limit);
    let (m, u) = double_of(longest, limit);
    let t = longest * u;
    lemma_half_even(t as int, limit as int);
    assert(u * limit <= t) by (nonlinear_arith)
        requires
            t == longest * u,
            limit < longest,
    ;
    lemma_not_below(t as int, limit as int, u as int);
    assert(v * u <= v * m) by (nonlinear_arith)
        requires
            u <= m,
    ;
    assert(1 <= v * u <= t) by (nonlinear_arith)
        requires
            1 <= v <= longest,
            1 <= u,
            t == longest * u,
    ;
    assert(2 * m * limit == 2 * (limit * m)) by (nonlinear_arith);
    assert(v * m < m * LEAST) by (nonlinear_arith)
        requires
            1 <= v <= 0x4000_0000,
            1 <= m,
            LEAST == 0x10_0000_0000_0000,
    ;
}

/// An edge is not enlarged, no edge is longer than the limit, and the longest edge is
/// exactly as long.
#[verifier::rlimit(30)]
pub proof fn law_reduced_edge(v: nat, longest: nat, limit: nat)
    requires
        1 <= v <= longest,
        1 <= limit < longest <= 0x4000_0000,
    ensures
        1 <= scaled_edge(v, longest, limit) <= v,
        scaled_edge(v, longest, limit) <= limit,
        v == longest ==> scaled_edge(v, longest, limit) == limit,
{
    lemma_ratio(v, longest, limit);
    let (m, u) = double_of(longest, limit);
    let n = v * u;
    lemma_unit(n, m);
    lemma_double(n, m);
    let (k, s) = double_of(n, m);
    let t = n * s;
    lemma_half_even(t as int, m as int);
    assert(t <= (v * s) * m) by (nonlinear_arith)
        requires
            t == n * s,
            n <= v * m,
    ;
    lemma_not_above(t as int, m as int, (v * s) as int);
    let q = (2 * k + s) / (2 * s);
    assert(q <= v) by (nonlinear_arith)
        requires
            q == (2 * k + s) / (2 * s),
            1 <= s,
            k <= v * s,
    ;
    // What the two roundings add stays below a half.
    assert(s * limit + m < s * m) by (nonlinear_arith)
        requires
            1 <= limit <= 0x4000_0000,
            LEAST <= m,
            2 <= s,
            LEAST == 0x10_0000_0000_0000,
    ;
    let a = 2 * (limit * s);
    assert(2 * k * m <= 2 * t + m);
    assert(2 * t <= (2 * (limit * m) + limit) * s) by (nonlinear_arith)
        requires
            t == n * s,
            2 * n <= 2 * (limit * m) + limit,
    ;
    assert((2 * (limit * m) + limit) * s == a * m + s * limit) by (nonlinear_arith)
        requires
            a == 2 * (limit * s),
    ;
    assert(2 * k * m == (2 * k) * m);
    assert(2 * k < a + s) by (nonlinear_arith)
        requires
            (2 * k) * m < a * m + s * m,
            1 <= m,
    ;
    assert(q <= limit) by (nonlinear_arith)
        requires
            q == (2 * k + s) / (2 * s),
            1 <= s,
            2 * k < 2 * (limit * s) + s,
    ;
    if v == longest {
        assert((2 * (limit * m) - limit) * s <= 2 * t) by (nonlinear_arith)
            requires
                t == n * s,
                2 * (limit * m) <= 2 * n + limit,
        ;
        assert((2 * (limit * m) - limit) * s == a * m - s * limit) by (nonlinear_arith)
            requires
                a == 2 * (limit * s),
        ;
        assert(a < 2 * k + s) by (nonlinear_arith)
            requires
                a * m < (2 * k) * m + s * m,
                1 <= m,
        ;
        assert(limit <= q) by (nonlinear_arith)
            requires
                q == (2 * k + s) / (2 * s),
                1 <= s,
                2 * (limit * s) < 2 * k + s,
        ;
    }
}

/// How far the rounded quotients of an edge are from exact ones.
#[verifier::rlimit(30)]
proof fn lemma_edge_error(v: nat, longest: nat, limit: nat, q: int)
    requires
        1 <= v <= longest,
        1 <= limit < longest <= 0x4000_0000,
        v * limit <= 0x2_0000_0000_0000,
        ({
            let (m, u) = double_of(longest, limit);
            let (k, s) = double_of(v * u, m);
            q == (2 * k + s) / (2 * s)
        }),
    ensures
        -(longest as int) <= 2 * (q * longest) - 2 * (v * limit) <= longest,
{
    lemma_ratio(v, longest, limit);
    let (m, u) = double_of(longest, limit);
    let n = v * u;
    lemma_unit(n, m);
    lemma_double(n, m);
    let (k, s) = double_of(n, m);
    let t = n * s;
    lemma_half_even(t as int, m as int);
    let (l, b) = (limit as int, longest as int);
    let e1 = 2 * (q * s) - 2 * k;
    vstd::arithmetic::div_mod::lemma_fundamental_div_mod((2 * k + s) as int, (2 * s) as int);
    assert((2 * s) * q == 2 * (q * s)) by (nonlinear_arith);
    assert(-s <= e1 <= s);
    let e2 = 2 * (k * m) - 2 * t;
    assert(2 * k * m == 2 * (k * m)) by (nonlinear_arith);
    assert(-m <= e2 <= m);
    let e3 = 2 * (l * m) - 2 * (b * u);
    assert(-l <= e3 <= l);
    let d = 2 * (q * b) - 2 * (v * l);
    assert(q >= 0) by (nonlinear_arith)
        requires
            q == (2 * k + s) / (2 * s),
            s >= 1,
            k >= 0,
    ;
    lemma_error_terms(q, s as int, m as int, u as int, v as int, l, b, k as int, e1, e2, e3, d);
    let z = e2 * l + e1 * (m * l) - q * (s * e3);
    lemma_error_size(q, s as int, m as int, l, e1, e2, e3, z);
    lemma_coarse(q, s as int, m as int, u as int, v as int, l, b, k as int, t as int);
    lemma_error_small(q, s as int, m as int, u as int, v as int, l, b, k as int, t as int);
    let w = s * u;
    if d > b {
        assert((b + 1) * w <= d * w) by (nonlinear_arith)
            requires
                b + 1 <= d,
                0 <= w,
        ;
    }
    if d < -b {
        assert(d * w <= -((b + 1) * w)) by (nonlinear_arith)
            requires
                d <= -(b + 1),
                0 <= w,
        ;
    }
}

/// A first bound on the edge.
proof fn lemma_coarse(q: int, s: int, m: int, u: int, v: int, l: int, b: int, k: int, t: int)
    requires
        0 <= q,
        1 <= s,
        1 <= u,
        1 <= v,
        1 <= l,
        1 <= b,
        v * l <= 0x2_0000_0000_0000,
        LEAST <= m,
        t == v * u * s,
        2 * (q * s) <= 2 * k + s,
        2 * (k * m) <= 2 * t + m,
        2 * (b * u) <= 2 * (l * m) + l,
    ensures
        q * b <= v * l + b + 1,
{
    let (x, sm, vl) = (q * b, s * m, v * l);
    if x >= vl + b + 2 {
        assert(2 * (q * sm) <= 2 * (k * m) + sm) by (nonlinear_arith)
            requires
                2 * (q * s) <= 2 * k + s,
                sm == s * m,
                0 <= m,
        ;
        assert(2 * (x * sm) == b * (2 * (q * sm))) by (nonlinear_arith)
            requires
                x == q * b,
        ;
        assert(b * (2 * (q * sm)) <= b * (2 * t + m + sm)) by (nonlinear_arith)
            requires
                2 * (q * sm) <= 2 * t + m + sm,
                1 <= b,
        ;
        let bu = b * u;
        assert(b * (2 * t + m + sm) == 2 * (v * s * bu) + b * m + b * sm) by (nonlinear_arith)
            requires
                t == v * u * s,
                bu == b * u,
        ;
        let vs = v * s;
        assert(1 <= vs) by (nonlinear_arith)
            requires
                vs == v * s,
                1 <= v,
                1 <= s,
        ;
        assert(2 * (vs * bu) <= vs * (2 * (l * m) + l)) by (nonlinear_arith)
            requires
                2 * bu <= 2 * (l * m) + l,
                1 <= vs,
        ;
        assert(vs * (2 * (l * m) + l) == 2 * (vl * sm) + vl * s) by (nonlinear_arith)
            requires
                vs == v * s,
                vl == v * l,
                sm == s * m,
        ;
        assert(b * m <= b * sm) by (nonlinear_arith)
            requires
                sm == s * m,
                1 <= s,
                0 <= m,
                1 <= b,
        ;
        assert(vl * s < 4 * sm) by (nonlinear_arith)
            requires
                sm == s * m,
                vl < 4 * m,
                1 <= s,
        ;
        assert(0 <= sm) by (nonlinear_arith)
            requires
                sm == s * m,
                1 <= s,
                0 <= m,
        ;
        assert((vl + b + 2) * sm <= x * sm) by (nonlinear_arith)
            requires
                vl + b + 2 <= x,
                0 <= sm,
        ;
        assert((vl + b + 2) * sm == vl * sm + b * sm + 2 * sm) by (nonlinear_arith);
        assert(v * s * bu == vs * bu);
    }
}

/// The errors of the three roundings together.
proof fn lemma_error_terms(
    q: int,
    s: int,
    m: int,
    u: int,
    v: int,
    l: int,
    b: int,
    k: int,
    e1: int,
    e2: int,
    e3: int,
    d: int,
)
    requires
        e1 == 2 * (q * s) - 2 * k,
        e2 == 2 * (k * m) - 2 * (v * u * s),
        e3 == 2 * (l * m) - 2 * (b * u),
        d == 2 * (q * b) - 2 * (v * l),
    ensures
        d * (s * u) == e2 * l + e1 * (m * l) - q * (s * e3),
{
    let (x, y, g, h) = (q * s * (m * l), k * (m * l), v * u * s * l, q * s * (b * u));
    assert(e1 * (m * l) == 2 * x - 2 * y) by (nonlinear_arith)
        requires
            e1 == 2 * (q * s) - 2 * k,
            x == q * s * (m * l),
            y == k * (m * l),
    ;
    assert(e2 * l == 2 * y - 2 * g) by (nonlinear_arith)
        requires
            e2 == 2 * (k * m) - 2 * (v * u * s),
            y == k * (m * l),
            g == v * u * s * l,
    ;
    assert(l * m == m * l) by (nonlinear_arith);
    let (a, c) = (m * l, b * u);
    assert(q * (s * e3) == 2 * x - 2 * h) by (nonlinear_arith)
        requires
            e3 == 2 * a - 2 * c,
            x == q * s * a,
            h == q * s * c,
    ;
    assert((2 * (q * b)) * (s * u) == 2 * h) by (nonlinear_arith)
        requires
            h == q * s * (b * u),
    ;
    assert((2 * (v * l)) * (s * u) == 2 * g) by (nonlinear_arith)
        requires
            g == v * u * s * l,
    ;
    assert(d * (s * u) == (2 * (q * b)) * (s * u) - (2 * (v * l)) * (s * u)) by (nonlinear_arith)
        requires
            d == 2 * (q * b) - 2 * (v * l),
    ;
}

/// A bound on them.
proof fn lemma_error_size(q: int, s: int, m: int, l: int, e1: int, e2: int, e3: int, z: int)
    requires
        -s <= e1 <= s,
        -m <= e2 <= m,
        -l <= e3 <= l,
        0 <= q,
        0 <= s,
        0 <= m,
        0 <= l,
        z == e2 * l + e1 * (m * l) - q * (s * e3),
    ensures
        -(m * l + s * (m * l) + s * (q * l)) <= z <= m * l + s * (m * l) + s * (q * l),
{
    assert(-(m * l) <= e2 * l <= m * l) by (nonlinear_arith)
        requires
            -m <= e2 <= m,
            0 <= l,
    ;
    let p = m * l;
    assert(0 <= p) by (nonlinear_arith)
        requires
            p == m * l,
            0 <= m,
            0 <= l,
    ;
    assert(-(s * p) <= e1 * p <= s * p) by (nonlinear_arith)
        requires
            -s <= e1 <= s,
            0 <= p,
    ;
    let c = s * e3;
    assert(-(s * l) <= c <= s * l) by (nonlinear_arith)
        requires
            c == s * e3,
            -l <= e3 <= l,
            0 <= s,
    ;
    assert(-(q * (s * l)) <= q * c <= q * (s * l)) by (nonlinear_arith)
        requires
            -(s * l) <= c <= s * l,
            0 <= q,
    ;
    assert(q * (s * l) == s * (q * l)) by (nonlinear_arith);
}

/// The bound is less than one part in `longest + 1`.
proof fn lemma_error_small(q: int, s: int, m: int, u: int, v: int, l: int, b: int, k: int, t: int)
    requires
        0 <= q,
        1 <= s,
        1 <= u,
        1 <= v <= b,
        1 <= l < b <= 0x4000_0000,
        v * l <= 0x2_0000_0000_0000,
        q * b <= v * l + b + 1,
        LEAST <= m,
        LEAST <= k,
        t == v * u * s,
        2 * (k * m) <= 2 * t + m,
        2 * (l * m) <= 2 * (b * u) + l,
    ensures
        m * l + s * (m * l) + s * (q * l) < (b + 1) * (s * u),
{
    let w = s * u;
    let c: int = 0x4_0000_0000_0000;
    // `7 q l ≤ 2 u`, from `m l ≤ b u + l / 2` and `q b ≤ c`.
    assert((2 * m - 1) * l <= 2 * (b * u)) by (nonlinear_arith)
        requires
            2 * (l * m) <= 2 * (b * u) + l,
    ;
    let ql = q * l;
    assert(0 <= ql) by (nonlinear_arith)
        requires
            ql == q * l,
            0 <= q,
            1 <= l,
    ;
    assert((2 * m - 1) * ql <= 2 * (c * u)) by (nonlinear_arith)
        requires
            (2 * m - 1) * l <= 2 * (b * u),
            ql == q * l,
            q * b <= c,
            0 <= q,
            1 <= u,
    ;
    assert(7 * ql <= 2 * u) by (nonlinear_arith)
        requires
            (2 * m - 1) * ql <= 2 * (c * u),
            LEAST <= m,
            LEAST == 0x10_0000_0000_0000,
            c == 0x4_0000_0000_0000,
            0 <= ql,
            1 <= u,
    ;
    assert(7 * (s * ql) <= 2 * w) by (nonlinear_arith)
        requires
            7 * ql <= 2 * u,
            w == s * u,
            1 <= s,
    ;
    assert(7 * l <= u) by (nonlinear_arith)
        requires
            (2 * m - 1) * l <= 2 * (b * u),
            b <= 0x4000_0000,
            LEAST <= m,
            LEAST == 0x10_0000_0000_0000,
            1 <= l,
            1 <= u,
    ;
    assert(7 * (s * l) <= w) by (nonlinear_arith)
        requires
            7 * l <= u,
            w == s * u,
            1 <= s,
    ;
    // `7 m l ≤ 2 s u`.
    assert((2 * k - 1) * m <= 2 * t) by (nonlinear_arith)
        requires
            2 * (k * m) <= 2 * t + m,
    ;
    assert((2 * LEAST - 1) * m <= 2 * t) by (nonlinear_arith)
        requires
            (2 * k - 1) * m <= 2 * t,
            LEAST <= k,
            LEAST <= m,
            LEAST == 0x10_0000_0000_0000,
    ;
    assert(t == v * w) by (nonlinear_arith)
        requires
            t == v * u * s,
            w == s * u,
    ;
    assert(1 <= w) by (nonlinear_arith)
        requires
            w == s * u,
            1 <= s,
            1 <= u,
    ;
    assert((2 * LEAST - 1) * (m * l) <= 2 * (c * w)) by (nonlinear_arith)
        requires
            (2 * LEAST - 1) * m <= 2 * t,
            t == v * w,
            v * l <= c,
            1 <= w,
            1 <= l,
    ;
    let ml = m * l;
    assert(0 <= ml) by (nonlinear_arith)
        requires
            ml == m * l,
            0 <= m,
            1 <= l,
    ;
    assert(7 * ml <= 2 * w) by (nonlinear_arith)
        requires
            (2 * LEAST - 1) * ml <= 2 * (c * w),
            LEAST == 0x10_0000_0000_0000,
            c == 0x4_0000_0000_0000,
            0 <= ml,
            1 <= w,
    ;
    // `s m l ≤ b s u + s l / 2`.
    assert(2 * (s * ml) <= 2 * (b * w) + s * l) by (nonlinear_arith)
        requires
            2 * ml <= 2 * (b * u) + l,
            w == s * u,
            1 <= s,
    ;
    assert(l * m == m * l) by (nonlinear_arith);
    assert((b + 1) * w == b * w + w) by (nonlinear_arith);
}

/// A reduced edge is the edge times the limit over the longest edge, rounded to the
/// nearest integer, and at least one pixel: of the longest edge, and of one whose product with
/// the limit is at most 2^49, as double precision tells the quotient from a neighbouring
/// half.
pub proof fn law_edge_is_nearest(v: nat, longest: nat, limit: nat)
    requires
        1 <= v <= longest,
        1 <= limit < longest <= 0x4000_0000,
        v == longest || v * limit <= 0x2_0000_0000_0000,
    ensures
        ({
            let e = scaled_edge(v, longest, limit);
            &&& 2 * (e * longest) >= 2 * (v * limit) - longest
            &&& 2 * (e * longest) <= 2 * (v * limit) + longest || (e == 1 && 2 * (v * limit) <= longest)
        }),
{
    let (m, u) = double_of(longest, limit);
    let (k, s) = double_of(v * u, m);
    let q: int = (2 * k + s) as int / (2 * s) as int;
    lemma_ratio(v, longest, limit);
    lemma_unit(v * u, m);
    if v == longest {
        law_reduced_edge(v, longest, limit);
        assert(limit * longest == longest * limit) by (nonlinear_arith);
    } else {
        lemma_edge_error(v, longest, limit, q);
        if q < 1 {
            assert(q >= 0) by (nonlinear_arith)
                requires
                    q == (2 * k + s) / (2 * s),
                    s >= 1,
                    k >= 0,
            ;
            assert(q * longest == 0) by (nonlinear_arith)
                requires
                    q == 0,
            ;
        }
    }
}

/// The double nearest to `n / d`.
fn double(n: u128, d: u128) -> (r: (u128, u128))
    requires
        1 <= n < d * LEAST,
        1 <= d <= 2 * LEAST,
    ensures
        (r.0 as nat, r.1 as nat) == double_of(n as nat, d as nat),
        r.0 <= 2 * LEAST,
        1 <= r.1 <= 4 * LEAST * LEAST,
{
    assert(d * LEAST <= 2 * LEAST * LEAST) by (nonlinear_arith)
        requires
            d <= 2 * LEAST,
            LEAST == 0x10_0000_0000_0000,
    ;
    let bound: u128 = d * LEAST;
    let (mut t, mut u): (u128, u128) = (n, 1);
    while t < bound
        invariant
            1 <= n < bound,
            1 <= d,
            bound == d * LEAST,
            bound <= 2 * LEAST * LEAST,
            1 <= u <= t < 2 * bound,
            t == n * u,
            unit(n as nat, d as nat) == u * unit(t as nat, d as nat),
        decreases 2 * bound - t,
    {
        proof {
            let w = unit((2 * t) as nat, d as nat);
            assert(u * (2 * w) == (2 * u) * w) by (nonlinear_arith);
            assert(n * (2 * u) == 2 * (n * u)) by (nonlinear_arith);
        }
        t = 2 * t;
        u = 2 * u;
    }
    let (q, r): (u128, u128) = (t / d, t % d);
    proof {
        let w = unit(t as nat, d as nat);
        assert(u * w == u) by (nonlinear_arith)
            requires
                w == 1,
        ;
        lemma_double(n as nat, d as nat);
        lemma_half_even(t as int, d as int);
    }
    if 2 * r > d || (2 * r == d && q % 2 == 1) {
        (q + 1, u)
    } else {
        (q, u)
    }
}

/// An edge of a reduced picture.
pub fn scale_edge(v: u32, longest: u32, limit: u32) -> (r: u32)
    requires
        1 <= v <= longest,
        1 <= limit < longest <= 0x4000_0000,
    ensures
        r == scaled_edge(v as nat, longest as nat, limit as nat),
{
    proof {
        law_reduced_edge(v as nat, longest as nat, limit as nat);
        lemma_ratio(v as nat, longest as nat, limit as nat);
        assert(longest < limit * LEAST) by (nonlinear_arith)
            requires
                longest <= 0x4000_0000,
                1 <= limit,
                LEAST == 0x10_0000_0000_0000,
        ;
    }
    let (m, u): (u128, u128) = double(longest as u128, limit as u128);
    assert(v * u < 0x8000_0000 * (LEAST * LEAST)) by (nonlinear_arith)
        requires
            v * u < m * LEAST,
            m <= 2 * LEAST,
            LEAST == 0x10_0000_0000_0000,
    ;
    let (k, s): (u128, u128) = double(v as u128 * u, m);
    let q: u128 = (2 * k + s) / (2 * s);
    if q < 1 {
        1
    } else {
        q as u32
    }
}

} // verus!
