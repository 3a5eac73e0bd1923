//! Grid composition (ISO/IEC 23008-12 §6.6.2.3).
use crate::compose::{crop, cropped, lemma_reads, needs_444, odd_chroma, pictured};
use crate::derived::GridDescriptor;
use crate::error::{ErrorKind, HeifError, Outcome, Result};
use crate::image::{
    build_picture, lemma_promoted_picture, lemma_valid_picture, max_of_depth, picture_of, size_refusal, Chroma,
    FrameModel, HeifFrame, HeifPixelFormat, Picture,
};
use crate::text::{concat, decimal};
use vstd::prelude::*;

verus! {

/// Whether two frames have the same chroma structure and depth.
pub open spec fn same_layout(a: Picture, b: Picture) -> bool {
    a.format.chroma == b.format.chroma && a.format.bit_depth == b.format.bit_depth
}

/// Whether two frames have the same chroma structure and depth.
pub(crate) fn has_same_layout(a: &HeifFrame, b: &HeifFrame) -> (r: bool)
    ensures
        r == same_layout(a@.picture(), b@.picture()),
{
    a.format.chroma == b.format.chroma && a.format.bit_depth == b.format.bit_depth
}

/// Why the tiles from `i` on do not match the first, `None` when they do.
pub open spec fn tile_refusal(tiles: Seq<Picture>, i: int) -> Option<ErrorKind>
    decreases tiles.len() - i,
{
    if i >= tiles.len() {
        None
    } else if tiles[i].width != tiles[0].width || tiles[i].height != tiles[0].height {
        Some(ErrorKind::Invalid)
    } else if !same_layout(tiles[i], tiles[0]) {
        Some(ErrorKind::Unsupported)
    } else {
        tile_refusal(tiles, i + 1)
    }
}

/// Whether a tile has an alpha plane.
pub open spec fn any_alpha(tiles: Seq<Picture>) -> bool {
    exists|i: int| 0 <= i < tiles.len() && (#[trigger] tiles[i]).format.has_alpha
}

/// Whether the tiles go through 4:4:4: their size or the size of the canvas is
/// odd for a subsampled layout.
pub open spec fn grid_promotes(d: GridDescriptor, t: Picture) -> bool {
    odd_chroma(t.format.chroma, t.width % 2 == 1, t.height % 2 == 1) || odd_chroma(
        t.format.chroma,
        d.output_width % 2 == 1,
        d.output_height % 2 == 1,
    )
}

/// The layout of the canvas.
pub open spec fn grid_format(d: GridDescriptor, tiles: Seq<Picture>) -> HeifPixelFormat {
    HeifPixelFormat {
        chroma: if grid_promotes(d, tiles[0]) {
            Chroma::Yuv444
        } else {
            tiles[0].format.chroma
        },
        bit_depth: tiles[0].format.bit_depth,
        has_alpha: any_alpha(tiles),
    }
}

/// The sample of the canvas at `(x, y)` of plane `p`: that of the tile which
/// covers it. A tile without an alpha plane is opaque.
pub open spec fn grid_sample(
    d: GridDescriptor,
    tiles: Seq<Picture>,
    p: int,
    x: int,
    y: int,
) -> u16 {
    let fmt = grid_format(d, tiles);
    let (tw, th) = fmt.dims(p, tiles[0].width, tiles[0].height);
    let i = y / (th as int) * d.columns + x / (tw as int);
    let t = tiles[i].promoted_if(grid_promotes(d, tiles[0]));
    if fmt.is_alpha(p) && !t.format.has_alpha {
        max_of_depth(fmt.bit_depth) as u16
    } else {
        (t.at)(p, x % (tw as int), y % (th as int))
    }
}

/// The picture a grid of tiles makes up.
pub open spec fn grid_picture(d: GridDescriptor, tiles: Seq<Picture>) -> Outcome<Picture> {
    let tw = tiles[0].width;
    let th = tiles[0].height;
    let full_w = tw * d.columns;
    let full_h = th * d.rows;
    if tiles.len() != d.rows * d.columns {
        Err(ErrorKind::Invalid)
    } else {
        match tile_refusal(tiles, 0) {
            Some(e) => Err(e),
            None => if full_w < d.output_width || full_h < d.output_height {
                Err(ErrorKind::Invalid)
            } else if full_w > u32::MAX || full_h > u32::MAX {
                Err(ErrorKind::Exhausted)
            } else {
                match size_refusal(full_w as u32, full_h as u32) {
                    Some(e) => Err(e),
                    None => {
                        let canvas = picture_of(
                            full_w as u32,
                            full_h as u32,
                            grid_format(d, tiles),
                            |p: int, x: int, y: int| grid_sample(d, tiles, p, x, y),
                        );
                        if full_w == d.output_width && full_h == d.output_height {
                            Ok(canvas)
                        } else {
                            cropped(canvas, 0, 0, d.output_width, d.output_height)
                        }
                    },
                }
            },
        }
    }
}

/// What a list of frames shows.
pub open spec fn frames(v: Seq<HeifFrame>) -> Seq<Picture> {
    Seq::new(v.len(), |i: int| v[i]@.picture())
}

/// What well-formed frames show is valid.
proof fn lemma_all_valid(v: Seq<HeifFrame>)
    requires
        forall|i: int| 0 <= i < v.len() ==> (#[trigger] v[i])@.wf(),
    ensures
        forall|i: int| 0 <= i < frames(v).len() ==> (#[trigger] frames(v)[i]).valid(),
{
    assert forall|i: int| 0 <= i < frames(v).len() implies (#[trigger] frames(v)[i]).valid() by {
        assert(v[i]@.wf());
        lemma_valid_picture(v[i]@);
    }
}

pub(crate) proof fn lemma_tiles(tiles: Seq<Picture>, i: int, k: int)
    requires
        0 <= i <= k < tiles.len(),
        tile_refusal(tiles, i) is None,
    ensures
        tiles[k].width == tiles[0].width,
        tiles[k].height == tiles[0].height,
        same_layout(tiles[k], tiles[0]),
    decreases k - i,
{
    if i < k {
        lemma_tiles(tiles, i + 1, k);
    }
}

/// A position of the canvas falls on one of the tiles.
pub(crate) proof fn lemma_cell(x: int, t: int, n: int)
    requires
        0 < t,
        0 <= x < t * n,
    ensures
        0 <= x / t < n,
        0 <= x % t < t,
{
    vstd::arithmetic::div_mod::lemma_fundamental_div_mod(x, t);
    assert(0 <= x / t) by (nonlinear_arith)
        requires
            0 <= x,
            0 < t,
    ;
    assert(x / t < n) by (nonlinear_arith)
        requires
            x < t * n,
            x == t * (x / t) + x % t,
            0 <= x % t,
            0 < t,
    ;
}

/// The index of a tile in row-major order.
pub(crate) proof fn lemma_index(r: int, c: int, rows: int, columns: int)
    requires
        0 <= r < rows,
        0 <= c < columns,
    ensures
        0 <= r * columns + c < rows * columns,
{
    assert(r * columns + columns <= rows * columns) by (nonlinear_arith)
        requires
            r + 1 <= rows,
            0 <= columns,
    ;
    assert(0 <= r * columns) by (nonlinear_arith)
        requires
            0 <= r,
            0 <= columns,
    ;
}

fn check_tiles(tiles: &[HeifFrame]) -> (r: Result<()>)
    requires
        tiles@.len() > 0,
    ensures
        match r {
            Ok(_) => tile_refusal(frames(tiles@), 0) is None,
            Err(e) => tile_refusal(frames(tiles@), 0) == Some(e.kind()),
        },
{
    let ghost all = frames(tiles@);
    for i in 0..tiles.len()
        invariant
            all == frames(tiles@),
            tiles@.len() > 0,
            tile_refusal(all, 0) == tile_refusal(all, i as int),
    {
        assert(all[i as int] == tiles@[i as int]@.picture() && all[0] == tiles@[0]@.picture());
        if tiles[i].width != tiles[0].width || tiles[i].height != tiles[0].height {
            let n: String = decimal(i as u64);
            return Err(
                HeifError::invalid(
                    concat(&["grid: tile ", n.as_str(), " differs in size from tile 0"]),
                ),
            );
        }
        if !has_same_layout(&tiles[i], &tiles[0]) {
            let n: String = decimal(i as u64);
            return Err(
                HeifError::unsupported(
                    concat(&["grid: tile ", n.as_str(), " layout differs from tile 0"]),
                ),
            );
        }
    }
    Ok(())
}

fn has_alpha_tile(tiles: &[HeifFrame]) -> (r: bool)
    ensures
        r == any_alpha(frames(tiles@)),
{
    let ghost all = frames(tiles@);
    for i in 0..tiles.len()
        invariant
            all == frames(tiles@),
            forall|k: int| 0 <= k < i ==> !(#[trigger] all[k]).format.has_alpha,
    {
        assert(all[i as int] == tiles@[i as int]@.picture());
        if tiles[i].format.has_alpha {
            return true;
        }
    }
    false
}

fn promote_tiles(tiles: &[HeifFrame], yes: bool) -> (r: Result<Vec<HeifFrame>>)
    requires
        forall|i: int| 0 <= i < tiles@.len() ==> (#[trigger] tiles@[i])@.wf(),
    ensures
        r matches Ok(v) && {
            &&& yes ==> v@.len() == tiles@.len()
            &&& forall|i: int|
                0 <= i < v@.len() ==> (#[trigger] v@[i])@.wf() && v@[i]@.picture()
                    == tiles@[i]@.picture().promoted()
        },
{
    let mut out: Vec<HeifFrame> = Vec::new();
    if yes {
        for i in 0..tiles.len()
            invariant
                forall|k: int| 0 <= k < tiles@.len() ==> (#[trigger] tiles@[k])@.wf(),
                out@.len() == i,
                forall|k: int|
                    0 <= k < i ==> (#[trigger] out@[k])@.wf() && out@[k]@.picture()
                        == tiles@[k]@.picture().promoted(),
        {
            assert(tiles@[i as int]@.wf());
            let t: HeifFrame = tiles[i].promote_to_444()?;
            proof {
                lemma_promoted_picture(t@, tiles@[i as int]@);
            }
            out.push(t);
        }
    }
    Ok(out)
}

/// §6.6.2.3 grid composition. Every tile must share one layout and one
/// size; tiles carrying alpha planes produce an output alpha plane
/// (tiles without one count as opaque).
pub fn composite_grid(desc: &GridDescriptor, tiles: &[HeifFrame]) -> (r: Result<HeifFrame>)
    requires
        forall|i: int| 0 <= i < tiles@.len() ==> (#[trigger] tiles@[i])@.wf(),
        tiles@.len() > 0 || desc.rows * desc.columns > 0,
    ensures
        pictured(r) == grid_picture(*desc, frames(tiles@)),
        r matches Ok(out) ==> out@.wf() && out@.packed(),
{
    let ghost all = frames(tiles@);
    if tiles.len() != desc.tile_count() {
        let n: String = decimal(tiles.len() as u64);
        let rows: String = decimal(desc.rows as u64);
        let columns: String = decimal(desc.columns as u64);
        return Err(
            HeifError::invalid(
                concat(
                    &[
                        "grid: ",
                        n.as_str(),
                        " tiles for a ",
                        rows.as_str(),
                        "x",
                        columns.as_str(),
                        " layout",
                    ],
                ),
            ),
        );
    }
    let first: &HeifFrame = &tiles[0];
    assert(all[0] == first@.picture());
    assert(tiles@[0]@.wf());
    let (tw, th) = (first.width, first.height);
    check_tiles(tiles)?;
    let cols: u64 = desc.columns as u64;
    let rows: u64 = desc.rows as u64;
    proof {
        assert(0 <= tw * cols <= 0xffff_ffff * 0xffff && 0 <= th * rows <= 0xffff_ffff * 0xffff)
            by (nonlinear_arith)
            requires
                0 <= tw <= 0xffff_ffff,
                0 <= th <= 0xffff_ffff,
                0 <= cols <= 0xffff,
                0 <= rows <= 0xffff,
        ;
    }
    let full_w: u64 = tw as u64 * cols;
    let full_h: u64 = th as u64 * rows;
    if full_w < desc.output_width as u64 || full_h < desc.output_height as u64 {
        return Err(HeifError::invalid("grid: the tiles do not cover the canvas"));
    }
    if full_w > u32::MAX as u64 || full_h > u32::MAX as u64 {
        return Err(HeifError::exhausted("grid: the tiles exceed the largest canvas"));
    }
    // Odd tile sizes in a subsampled layout put tile origins on odd
    // chroma positions: promote.
    let promote: bool = needs_444(first.format.chroma, tw % 2 == 1, th % 2 == 1) || needs_444(
        first.format.chroma,
        desc.output_width % 2 == 1,
        desc.output_height % 2 == 1,
    );
    let chroma: Chroma = if promote {
        Chroma::Yuv444
    } else {
        first.format.chroma
    };
    let fmt: HeifPixelFormat = HeifPixelFormat::new(
        chroma,
        first.format.bit_depth,
        has_alpha_tile(tiles),
    )?;
    let (full_w, full_h) = (full_w as u32, full_h as u32);
    HeifFrame::check_dims(full_w, full_h)?;
    let promoted: Vec<HeifFrame> = promote_tiles(tiles, promote)?;
    let max: u16 = fmt.max_value();
    let columns: usize = desc.columns as usize;
    let colour: usize = fmt.chroma.colour_planes();
    let read = |p: usize, x: u32, y: u32| -> (v: u16)
        requires
            fmt.has(full_w, full_h, p as int, x as int, y as int),
            fmt == grid_format(*desc, frames(tiles@)),
            fmt.wf(),
            max == max_of_depth(fmt.bit_depth),
            full_w == tw * desc.columns,
            full_h == th * desc.rows,
            columns == desc.columns,
            colour == fmt.chroma.planes(),
            tiles@.len() == desc.rows * desc.columns,
            tiles@.len() > 0,
            tw == tiles@[0].width,
            th == tiles@[0].height,
            forall|i: int| 0 <= i < tiles@.len() ==> (#[trigger] tiles@[i])@.wf(),
            tile_refusal(frames(tiles@), 0) is None,
            promote == grid_promotes(*desc, tiles@[0]@.picture()),
            promote ==> promoted@.len() == tiles@.len(),
            forall|i: int|
                0 <= i < promoted@.len() ==> (#[trigger] promoted@[i])@.wf()
                    && promoted@[i]@.picture() == tiles@[i]@.picture().promoted(),
        ensures
            v == grid_sample(*desc, frames(tiles@), p as int, x as int, y as int),
        {
            let (pw, ph) = fmt.plane_dims(p, tw, th);
            let (c, r) = (x / pw, y / ph);
            proof {
                lemma_all_valid(tiles@);
                assert(frames(tiles@)[0].valid());
                lemma_plane_grid(
                    fmt,
                    *desc,
                    frames(tiles@),
                    full_w,
                    full_h,
                    p as int,
                );
                lemma_cell(x as int, pw as int, desc.columns as int);
                lemma_cell(y as int, ph as int, desc.rows as int);
                lemma_index(r as int, c as int, desc.rows as int, desc.columns as int);
                assert(tiles.len() == tiles@.len());
                assert(0 <= r * columns) by (nonlinear_arith)
                    requires
                        0 <= r,
                        0 <= columns,
                ;
            }
            let i: usize = r as usize * columns + c as usize;
            let t: &HeifFrame = if promote {
                &promoted[i]
            } else {
                &tiles[i]
            };
            proof {
                assert(tiles@[i as int]@.wf());
                assert(frames(tiles@)[i as int] == tiles@[i as int]@.picture());
                assert(frames(tiles@)[0] == tiles@[0]@.picture());
                lemma_tiles(frames(tiles@), 0, i as int);
                if promote {
                    assert(promoted@[i as int]@.wf());
                    lemma_picture_fields(promoted@[i as int]@, tiles@[i as int]@);
                }
            }
            if fmt.has_alpha && p == colour && !t.format.has_alpha {
                max
            } else {
                let (sx, sy) = (x % pw, y % ph);
                proof {
                    assert(t@.has(p as int, sx as int, sy as int));
                    lemma_reads(t@, p as int, sx as int, sy as int);
                }
                t.sample(p, sx, sy)
            }
        };
    let ghost g = |p: int, x: int, y: int| grid_sample(*desc, all, p, x, y);
    proof {
        assert forall|p: int, x: int, y: int| fmt.has(full_w, full_h, p, x, y) implies fmt.stored(
            #[trigger] g(p, x, y),
        ) == g(p, x, y) by {
            lemma_all_valid(tiles@);
            lemma_grid_stored(*desc, all, p, x, y);
        }
    }
    let canvas: HeifFrame = build_picture(full_w, full_h, fmt, read, Ghost(g))?;
    proof {
        assert(canvas@.picture() =~= picture_of(
            full_w,
            full_h,
            grid_format(*desc, all),
            |p: int, x: int, y: int| grid_sample(*desc, all, p, x, y),
        ));
    }
    if full_w == desc.output_width && full_h == desc.output_height {
        return Ok(canvas);
    }
    crop(&canvas, 0, 0, desc.output_width, desc.output_height)
}

/// The 4:4:4 frame of a tile has its size.
proof fn lemma_picture_fields(a: FrameModel, b: FrameModel)
    requires
        a.picture() == b.picture().promoted(),
    ensures
        a.width == b.width,
        a.height == b.height,
        a.format == (HeifPixelFormat { chroma: Chroma::Yuv444, ..b.format }),
{
    let p = a.picture();
    let q = b.picture().promoted();
    assert(p.width == q.width && p.height == q.height && p.format == q.format);
}

/// A plane of the canvas is a whole number of tile planes wide and high.
proof fn lemma_plane_grid(
    fmt: HeifPixelFormat,
    d: GridDescriptor,
    tiles: Seq<Picture>,
    full_w: u32,
    full_h: u32,
    p: int,
)
    requires
        fmt == grid_format(d, tiles),
        tiles[0].valid(),
        full_w == tiles[0].width * d.columns,
        full_h == tiles[0].height * d.rows,
    ensures
        fmt.dims(p, tiles[0].width, tiles[0].height).0 > 0,
        fmt.dims(p, tiles[0].width, tiles[0].height).1 > 0,
        fmt.dims(p, full_w, full_h).0 == fmt.dims(p, tiles[0].width, tiles[0].height).0 * d.columns,
        fmt.dims(p, full_w, full_h).1 == fmt.dims(p, tiles[0].width, tiles[0].height).1 * d.rows,
{
    let w = tiles[0].width as int;
    let h = tiles[0].height as int;
    if fmt.chroma.shift_x() == 1 {
        assert(w % 2 == 0);
        lemma_half(w, d.columns as int);
    }
    if fmt.chroma.shift_y() == 1 {
        assert(h % 2 == 0);
        lemma_half(h, d.rows as int);
    }
}

proof fn lemma_half(w: int, n: int)
    requires
        w % 2 == 0,
    ensures
        (w * n) % 2 == 0,
        (w * n) / 2 == (w / 2) * n,
{
    let k = w / 2;
    assert(w * n == 2 * (k * n)) by (nonlinear_arith)
        requires
            w == 2 * k,
    ;
}

proof fn lemma_grid_stored(d: GridDescriptor, tiles: Seq<Picture>, p: int, x: int, y: int)
    requires
        tiles.len() > 0,
        tile_refusal(tiles, 0) is None,
        forall|i: int| 0 <= i < tiles.len() ==> (#[trigger] tiles[i]).valid(),
        tiles.len() == d.rows * d.columns,
        grid_format(d, tiles).has(
            (tiles[0].width * d.columns) as u32,
            (tiles[0].height * d.rows) as u32,
            p,
            x,
            y,
        ),
        tiles[0].width * d.columns <= u32::MAX,
        tiles[0].height * d.rows <= u32::MAX,
    ensures
        grid_format(d, tiles).stored(grid_sample(d, tiles, p, x, y)) == grid_sample(
            d,
            tiles,
            p,
            x,
            y,
        ),
{
    vstd::arithmetic::power2::lemma2_to64();
    let fmt = grid_format(d, tiles);
    let (tw, th) = fmt.dims(p, tiles[0].width, tiles[0].height);
    let fw = (tiles[0].width * d.columns) as u32;
    let fh = (tiles[0].height * d.rows) as u32;
    assert(tiles[0].valid());
    assert(0 <= tiles[0].width * d.columns && 0 <= tiles[0].height * d.rows) by (nonlinear_arith)
        requires
            0 <= tiles[0].width,
            0 <= tiles[0].height,
            0 <= d.columns,
            0 <= d.rows,
    ;
    lemma_plane_grid(fmt, d, tiles, fw, fh, p);
    lemma_cell(x, tw as int, d.columns as int);
    lemma_cell(y, th as int, d.rows as int);
    let r = y / (th as int);
    let c = x / (tw as int);
    lemma_index(r, c, d.rows as int, d.columns as int);
    let i = r * d.columns + c;
    assert(tiles[i].valid());
    lemma_tiles(tiles, 0, i);
}

} // verus!
