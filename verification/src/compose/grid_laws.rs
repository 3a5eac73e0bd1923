//! Laws of grid composition.
use crate::compose::grid::{any_alpha, grid_picture, grid_promotes, lemma_cell, lemma_index, lemma_tiles};
use crate::derived::GridDescriptor;
use crate::error::ErrorKind;
use crate::image::seen::{inside, law_promoted_looks_the_same, seen, seen_opacity};
use crate::image::Picture;
use vstd::prelude::*;

verus! {

/// Halving a position and an even tile edge leaves the tile, and halves the place in it.
proof fn lemma_halved(v: int, t: int)
    requires
        0 <= v,
        2 <= t,
        t % 2 == 0,
    ensures
        (v / 2) / (t / 2) == v / t,
        (v / 2) % (t / 2) == (v % t) / 2,
{
    let h = t / 2;
    let (q, r) = (v / t, v % t);
    vstd::arithmetic::div_mod::lemma_fundamental_div_mod(v, t);
    assert(t * q == 2 * (h * q)) by (nonlinear_arith)
        requires
            t == 2 * h,
    ;
    assert(v / 2 == h * q + r / 2);
    assert(q * h == h * q) by (nonlinear_arith);
    vstd::arithmetic::div_mod::lemma_fundamental_div_mod_converse(v / 2, h, q, r / 2);
}

/// A grid shows its tiles side by side, in rows from left to right and from top to
/// bottom: the pixel at `(x, y)` is that of tile `y / h * columns + x / w` at
/// `(x % w, y % h)`, where the tiles are `w × h`; opaque where the tile has no alpha. The picture
/// is as large as the descriptor says.
#[verifier::rlimit(60)]
pub proof fn law_grid_shows_its_tiles(d: GridDescriptor, tiles: Seq<Picture>, out: Picture, x: int, y: int)
    requires
        grid_picture(d, tiles) == Ok::<Picture, ErrorKind>(out),
        forall|i: int| 0 <= i < tiles.len() ==> (#[trigger] tiles[i]).valid(),
        inside(out, x, y),
    ensures
        ({
            let (w, h) = (tiles[0].width as int, tiles[0].height as int);
            let i = y / h * d.columns + x / w;
            &&& out.width == d.output_width
            &&& out.height == d.output_height
            &&& out.format.bit_depth == tiles[0].format.bit_depth
            &&& 0 <= i < tiles.len()
            &&& tiles.len() == d.rows * d.columns
            &&& inside(tiles[i], x % w, y % h)
            &&& forall|p: int|
                0 <= p < 3 ==> #[trigger] seen(out, p, x, y) == seen(tiles[i], p, x % w, y % h)
            &&& seen_opacity(out, x, y) == seen_opacity(tiles[i], x % w, y % h)
            &&& out.format.has_alpha == exists|k: int|
                0 <= k < tiles.len() && (#[trigger] tiles[k]).format.has_alpha
        }),
{
    let t0 = tiles[0];
    let (w, h) = (t0.width as int, t0.height as int);
    assert(w * d.columns > x && h * d.rows > y);
    if tiles.len() == 0 {
        assert(d.rows == 0 || d.columns == 0) by (nonlinear_arith)
            requires
                d.rows * d.columns == 0,
        ;
        assert(w * d.columns == 0 || h * d.rows == 0) by (nonlinear_arith)
            requires
                d.rows == 0 || d.columns == 0,
        ;
    }
    assert(t0.valid());
    lemma_cell(x, w, d.columns as int);
    lemma_cell(y, h, d.rows as int);
    lemma_index(y / h, x / w, d.rows as int, d.columns as int);
    let i = y / h * d.columns + x / w;
    let t = tiles[i];
    lemma_tiles(tiles, 0, i);
    assert(t.valid());
    law_promoted_looks_the_same(t);
    lemma_halves(t0, x, y);
    let up = grid_promotes(d, t0);
    let (u, v) = (x % w, y % h);
    vstd::arithmetic::power2::lemma2_to64();
    if any_alpha(tiles) && t.format.has_alpha {
    } else if !any_alpha(tiles) {
        assert(!tiles[i].format.has_alpha);
    }
    crate::compose::overlay::lemma_max(t.format.bit_depth);
    assert forall|p: int| 0 <= p < 3 implies #[trigger] seen(out, p, x, y) == seen(t, p, u, v) by {
        if up {
            assert(seen(t.promoted(), p, u, v) == seen(t, p, u, v));
        }
    }
    if up {
        assert(seen_opacity(t.promoted(), u, v) == seen_opacity(t, u, v));
    }
}

/// The places of a pixel in the tile and in its chroma planes.
proof fn lemma_halves(t: Picture, x: int, y: int)
    requires
        t.width > 0,
        t.height > 0,
        0 <= x,
        0 <= y,
    ensures
        t.width % 2 == 0 ==> (x / 2) / (t.width as int / 2) == x / (t.width as int) && (x / 2) % (
        t.width as int / 2) == (x % (t.width as int)) / 2,
        t.height % 2 == 0 ==> (y / 2) / (t.height as int / 2) == y / (t.height as int) && (y / 2) % (
        t.height as int / 2) == (y % (t.height as int)) / 2,
{
    if t.width % 2 == 0 {
        lemma_halved(x, t.width as int);
    }
    if t.height % 2 == 0 {
        lemma_halved(y, t.height as int);
    }
}

} // verus!
