//! The tiles of a grid compose back to the picture they were cut from.
use crate::compose::grid::{grid_format, grid_picture, grid_promotes, grid_sample, tile_refusal};
use crate::compose::{cropped, odd_chroma};
use crate::derived::GridDescriptor;
use crate::encode::convert::{law_pad_then_cut, padded_picture};
use crate::encode::still::{lemma_tiles, master_of, tile_at, tile_edge, tiles_over, MasterModel};
use crate::encode::EncodeOptions;
use crate::error::ErrorKind;
use crate::image::{picture_of, shrunk, size_refusal, Chroma, Picture};
use vstd::prelude::*;

verus! {

/// Where position `v` of an axis of `n` tiles lies: in tile `v / tile`, whose
/// first position is even.
proof fn lemma_axis(v: int, n: int, tile: int)
    requires
        0 <= v < n * tile,
        0 < tile,
    ensures
        0 <= v / tile < n,
        0 <= v % tile < tile,
        v == v / tile * tile + v % tile,
{
    vstd::arithmetic::div_mod::lemma_fundamental_div_mod(v, tile);
    assert(v / tile * tile == tile * (v / tile)) by (nonlinear_arith);
    let q = v / tile;
    assert(0 <= q < n) by (nonlinear_arith)
        requires
            q == v / tile,
            0 <= v < n * tile,
            0 < tile,
    ;
}

/// Halving keeps what lies in a tile in the tile.
proof fn lemma_half(q: int, tile: int, r: int)
    requires
        0 <= q,
        0 <= r,
        0 < tile,
        tile % 2 == 0,
    ensures
        (q * tile) / 2 == q * (tile / 2),
        (q * tile + r) / 2 == q * (tile / 2) + r / 2,
        (q * tile) % 2 == 0,
{
    let k = tile / 2;
    assert(q * tile == 2 * (q * k)) by (nonlinear_arith)
        requires
            tile == 2 * k,
    ;
}

/// Tile `(i, j)` of a grid is its tile `j * columns + i`.
proof fn lemma_index(i: int, j: int, columns: int, rows: int)
    requires
        0 <= i < columns,
        0 <= j < rows,
    ensures
        0 <= j * columns + i < rows * columns,
        (j * columns + i) % columns == i,
        (j * columns + i) / columns == j,
{
    vstd::arithmetic::div_mod::lemma_fundamental_div_mod_converse(
        j * columns + i,
        columns,
        j,
        i,
    );
    assert(0 <= j * columns && j * columns + columns <= rows * columns) by (nonlinear_arith)
        requires
            0 <= j < rows,
            0 <= columns,
    ;
}

spec fn cut_of(f: Picture, tile: int, columns: int, rows: int) -> Seq<Picture> {
    Seq::new((rows * columns) as nat, |i: int| tile_at(f, tile, columns, i))
}

/// A sample of the composed canvas is the sample of the picture the tiles were
/// cut from.
proof fn lemma_sample(
    f: Picture,
    tile: int,
    d: GridDescriptor,
    p: int,
    x: int,
    y: int,
)
    requires
        0 < tile <= u32::MAX,
        tile % 2 == 0,
        1 <= d.columns,
        1 <= d.rows,
        f.width == d.columns * tile,
        f.height == d.rows * tile,
        !f.format.has_alpha,
        grid_format(d, cut_of(f, tile, d.columns as int, d.rows as int)).has(
            f.width,
            f.height,
            p,
            x,
            y,
        ),
    ensures
        grid_sample(d, cut_of(f, tile, d.columns as int, d.rows as int), p, x, y) == (f.promoted_if(
            grid_promotes(d, cut_of(f, tile, d.columns as int, d.rows as int)[0]),
        ).at)(p, x, y),
{
    let (columns, rows) = (d.columns as int, d.rows as int);
    let tiles = cut_of(f, tile, columns, rows);
    lemma_index(0, 0, columns, rows);
    assert(tiles[0] == tile_at(f, tile, columns, 0));
    let promotes = grid_promotes(d, tiles[0]);
    let fmt = grid_format(d, tiles);
    assert(!fmt.has_alpha) by {
        assert forall|k: int| 0 <= k < tiles.len() implies !(#[trigger] tiles[k]).format.has_alpha by {
            assert(tiles[k] == tile_at(f, tile, columns, k));
        }
    }
    let c = f.format.chroma;
    let (tw, th) = fmt.dims(p, tile as u32, tile as u32);
    // Whether the plane is halved along an axis, in the tiles and in the picture.
    let sx: u32 = if p == 0 || promotes {
        0
    } else {
        c.shift_x()
    };
    let sy: u32 = if p == 0 || promotes {
        0
    } else {
        c.shift_y()
    };
    assert(tw == shrunk(tile, sx) && th == shrunk(tile, sy));
    lemma_half(columns, tile, 0);
    lemma_half(rows, tile, 0);
    assert(x < columns * tw) by {
        assert(fmt.dims(p, f.width, f.height).0 == shrunk(f.width as int, sx));
    }
    assert(y < rows * th) by {
        assert(fmt.dims(p, f.width, f.height).1 == shrunk(f.height as int, sy));
    }
    lemma_axis(x, columns, tw as int);
    lemma_axis(y, rows, th as int);
    let (i, j) = (x / (tw as int), y / (th as int));
    let (a, b) = (x % (tw as int), y % (th as int));
    lemma_index(i, j, columns, rows);
    let n = j * columns + i;
    assert(tiles[n] == tile_at(f, tile, columns, n));
    let t = tiles[n];
    assert(t == f.cut(i * tile, j * tile, tile as u32, tile as u32));
    lemma_half(i, tile, a);
    lemma_half(j, tile, b);
    if promotes {
        assert(t.promoted().format.has(tile as u32, tile as u32, p, a, b));
        assert(f.promoted().format.has(f.width, f.height, p, x, y));
        if p != 0 {
            let (ca, cb) = (shrunk(a, c.shift_x()), shrunk(b, c.shift_y()));
            assert(t.format.has(tile as u32, tile as u32, p, ca, cb));
        } else {
            assert(t.format.has(tile as u32, tile as u32, p, a, b));
        }
    } else {
        assert(t.format.has(tile as u32, tile as u32, p, a, b));
    }
}

/// The tiles match one another.
proof fn lemma_match(tiles: Seq<Picture>, i: int)
    requires
        0 <= i,
        forall|k: int|
            0 <= k < tiles.len() ==> (#[trigger] tiles[k]).width == tiles[0].width
                && tiles[k].height == tiles[0].height && tiles[k].format == tiles[0].format,
    ensures
        tile_refusal(tiles, i) is None,
    decreases tiles.len() - i,
{
    if i < tiles.len() {
        lemma_match(tiles, i + 1);
    }
}

/// Composing the tiles of a picture gives the picture, in 4:4:4 where its size
/// is odd for its chroma.
proof fn lemma_canvas(f: Picture, tile: int, d: GridDescriptor)
    requires
        0 < tile <= u32::MAX,
        tile % 2 == 0,
        1 <= d.columns,
        1 <= d.rows,
        f.width == d.columns * tile,
        f.height == d.rows * tile,
        d.output_width <= f.width,
        d.output_height <= f.height,
        size_refusal(f.width, f.height) is None,
        !f.format.has_alpha,
        f.bounded(),
    ensures
        ({
            let promotes = odd_chroma(
                f.format.chroma,
                d.output_width % 2 == 1,
                d.output_height % 2 == 1,
            );
            let whole = f.promoted_if(promotes);
            grid_picture(d, cut_of(f, tile, d.columns as int, d.rows as int)) == (if f.width
                == d.output_width && f.height == d.output_height {
                Ok(whole)
            } else {
                cropped(whole, 0, 0, d.output_width, d.output_height)
            })
        }),
{
    let (columns, rows) = (d.columns as int, d.rows as int);
    let tiles = cut_of(f, tile, columns, rows);
    lemma_index(0, 0, columns, rows);
    assert(tiles[0] == tile_at(f, tile, columns, 0));
    assert forall|k: int| 0 <= k < tiles.len() implies (#[trigger] tiles[k]).width
        == tiles[0].width && tiles[k].height == tiles[0].height && tiles[k].format
        == tiles[0].format by {
        assert(tiles[k] == tile_at(f, tile, columns, k));
    }
    lemma_match(tiles, 0);
    let promotes = grid_promotes(d, tiles[0]);
    assert(promotes == odd_chroma(
        f.format.chroma,
        d.output_width % 2 == 1,
        d.output_height % 2 == 1,
    ));
    assert(tiles[0].width * d.columns == f.width) by (nonlinear_arith)
        requires
            tiles[0].width == tile,
            f.width == d.columns * tile,
    ;
    assert(tiles[0].height * d.rows == f.height) by (nonlinear_arith)
        requires
            tiles[0].height == tile,
            f.height == d.rows * tile,
    ;
    let whole = f.promoted_if(promotes);
    let canvas = picture_of(
        f.width,
        f.height,
        grid_format(d, tiles),
        |p: int, x: int, y: int| grid_sample(d, tiles, p, x, y),
    );
    assert(!grid_format(d, tiles).has_alpha);
    assert(canvas.format == whole.format);
    assert forall|p: int, x: int, y: int| #[trigger] (canvas.at)(p, x, y) == (whole.at)(p, x, y) by {
        if canvas.format.has(f.width, f.height, p, x, y) {
            lemma_sample(f, tile, d, p, x, y);
        } else {
            assert(!whole.format.has(f.width, f.height, p, x, y));
        }
    }
    assert(canvas.at =~= whole.at);
    assert(canvas == whole);
    assert(tiles.len() == d.rows * d.columns);
}

/// Cutting the visible extent out of a padded 4:4:4 picture gives the 4:4:4
/// picture.
proof fn lemma_promoted_cut(f: Picture, w: u32, h: u32)
    requires
        f.bounded(),
        !f.format.has_alpha,
        f.format.chroma != Chroma::Mono,
        f.width <= w,
        f.height <= h,
    ensures
        f.padded(w, h).promoted().cut(0, 0, f.width, f.height) == f.promoted(),
{
    let wide = f.padded(w, h);
    let back = wide.promoted().cut(0, 0, f.width, f.height);
    let goal = f.promoted();
    let c = f.format.chroma;
    assert forall|p: int, x: int, y: int| #[trigger] (back.at)(p, x, y) == (goal.at)(p, x, y) by {
        if goal.format.has(f.width, f.height, p, x, y) {
            assert(wide.promoted().format.has(w, h, p, x, y));
            if p == 0 {
                assert(f.format.has(f.width, f.height, p, x, y));
                assert(wide.format.has(w, h, p, x, y));
            } else {
                let (cx, cy) = (shrunk(x, c.shift_x()), shrunk(y, c.shift_y()));
                assert(f.format.has(f.width, f.height, p, cx, cy));
                assert(wide.format.has(w, h, p, cx, cy));
            }
        }
    }
    assert(back.at =~= goal.at);
}

/// The tiles a master is cut into compose back to its picture; where the size
/// of a picture is odd for its chroma, to the picture in 4:4:4.
#[verifier::rlimit(50)]
pub proof fn law_tiles_compose_back(c: Picture, opts: EncodeOptions)
    requires
        c.bounded(),
        !c.format.has_alpha,
        size_refusal(c.width, c.height) is None,
    ensures
        master_of(c, opts) matches Ok(MasterModel::Grid(d, tiles)) ==> grid_picture(d, tiles) == Ok::<
            Picture,
            ErrorKind,
        >(c.promoted_if(odd_chroma(c.format.chroma, c.width % 2 == 1, c.height % 2 == 1))),
{
    match master_of(c, opts) {
        Ok(MasterModel::Grid(d, tiles)) => {
            let tile = tile_edge(c, opts)->0;
            crate::encode::still::lemma_tile_edge(c, opts);
            lemma_tiles(c.width as int, tile);
            lemma_tiles(c.height as int, tile);
            let columns = tiles_over(c.width as int, tile);
            let rows = tiles_over(c.height as int, tile);
            let (w, h) = ((columns * tile) as u32, (rows * tile) as u32);
            let f = c.padded(w, h);
            assert(padded_picture(c, w, h) == Ok::<Picture, ErrorKind>(f));
            assert(tiles =~= cut_of(f, tile, columns, rows));
            assert(f.bounded());
            lemma_canvas(f, tile, d);
            law_pad_then_cut(c, w, h);
            if c.format.chroma != Chroma::Mono {
                lemma_promoted_cut(c, w, h);
            }
            if w == c.width && h == c.height {
                assert(f =~= c) by {
                    assert forall|p: int, x: int, y: int| #[trigger] (f.at)(p, x, y) == (c.at)(p, x, y) by {}
                }
            }
        },
        _ => {},
    }
}

} // verus!
