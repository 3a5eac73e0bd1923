//! Laws of the properties that change the size of an image.
use crate::error::ErrorKind;
use crate::props::{clap_axis, Clap, CropRect, Iscl};
use vstd::prelude::*;

verus! {

/// What a clean aperture selects along one axis of `n` pixels: its size is the whole number
/// `a / b`, at least 1; twice the edge is what the size leaves, moved by twice the
/// offset `c / d`; and all of it is inside.
pub open spec fn selects(a: u32, b: u32, c: i32, d: u32, n: u32, edge: u32, size: u32) -> bool {
    &&& b > 0 && d > 0
    &&& size >= 1 && size * b == a
    &&& 2 * (edge * d) == (n - size) * d + 2 * c
    &&& edge + size <= n
}

proof fn lemma_axis(a: u32, b: u32, c: i32, d: u32, n: u32, edge: u32, size: u32)
    ensures
        clap_axis(a, b, c, d, n) == Ok::<(u32, u32), ErrorKind>((edge, size)) <==> selects(
            a,
            b,
            c,
            d,
            n,
            edge,
            size,
        ),
{
    let s: int = a as int / b as int;
    let num: int = (n - s) * d + 2 * c;
    let den: int = 2 * d;
    if b > 0 && d > 0 {
        vstd::arithmetic::div_mod::lemma_fundamental_div_mod(a as int, b as int);
        vstd::arithmetic::div_mod::lemma_fundamental_div_mod(num, den);
        assert(b * s == s * b) by (nonlinear_arith);
        assert(0 <= s <= a) by (nonlinear_arith)
            requires
                s == a as int / b as int,
                0 <= a,
                1 <= b,
        ;
        let e = num / den;
        assert(den * e == 2 * (e * d)) by (nonlinear_arith)
            requires
                den == 2 * d,
        ;
        if selects(a, b, c, d, n, edge, size) {
            vstd::arithmetic::div_mod::lemma_fundamental_div_mod_converse(
                a as int,
                b as int,
                size as int,
                0,
            );
            assert(s == size);
            assert(edge * den == 2 * (edge * d)) by (nonlinear_arith)
                requires
                    den == 2 * d,
            ;
            vstd::arithmetic::div_mod::lemma_fundamental_div_mod_converse(num, den, edge as int, 0);
        }
    }
}

/// A clean aperture selects a rectangle exactly when it does so along both axes: a whole
/// size, centred but for the offset, inside the image.
pub proof fn law_clean_aperture(c: Clap, width: u32, height: u32, r: CropRect)
    ensures
        c.rect(width, height) == Ok::<CropRect, ErrorKind>(r) <==> selects(
            c.width_n,
            c.width_d,
            c.horiz_off_n,
            c.horiz_off_d,
            width,
            r.x,
            r.width,
        ) && selects(
            c.height_n,
            c.height_d,
            c.vert_off_n,
            c.vert_off_d,
            height,
            r.y,
            r.height,
        ),
{
    lemma_axis(c.width_n, c.width_d, c.horiz_off_n, c.horiz_off_d, width, r.x, r.width);
    lemma_axis(c.height_n, c.height_d, c.vert_off_n, c.vert_off_d, height, r.y, r.height);
    if let Ok(q) = c.rect(width, height) {
        lemma_axis(c.width_n, c.width_d, c.horiz_off_n, c.horiz_off_d, width, q.x, q.width);
        lemma_axis(c.height_n, c.height_d, c.vert_off_n, c.vert_off_d, height, q.y, q.height);
    }
}

/// A scaled image has the size times the ratio, rounded up to whole pixels, along each
/// axis.
pub proof fn law_scaled_size(s: Iscl, width: u32, height: u32, size: (u32, u32))
    requires
        s.scaled(width, height) == Ok::<(u32, u32), ErrorKind>(size),
    ensures
        size.0 * s.width_den >= width * s.width_num,
        (size.0 - 1) * s.width_den < width * s.width_num,
        size.1 * s.height_den >= height * s.height_num,
        (size.1 - 1) * s.height_den < height * s.height_num,
{
    lemma_ceiling(width * s.width_num, s.width_den as int);
    lemma_ceiling(height * s.height_num, s.height_den as int);
}

proof fn lemma_ceiling(v: int, d: int)
    requires
        0 < d,
        0 <= v,
    ensures
        ({
            let q = (v + d - 1) / d;
            &&& 0 <= q
            &&& q * d >= v
            &&& (q - 1) * d < v
        }),
{
    let q = (v + d - 1) / d;
    vstd::arithmetic::div_mod::lemma_fundamental_div_mod(v + d - 1, d);
    assert(d * q == q * d && (q - 1) * d == q * d - d) by (nonlinear_arith);
    assert(0 <= q) by (nonlinear_arith)
        requires
            q == (v + d - 1) / d,
            0 <= v + d - 1,
            0 < d,
    ;
}

} // verus!
