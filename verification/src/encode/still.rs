//! The pictures a still image file is made of: the master (one item or a grid
//! of tiles), its alpha auxiliary, its thumbnail and its gain map.
use crate::compose::{crop, resize_nearest};
use crate::derived::GridDescriptor;
use crate::encode::av1::lemma_colour_only;
use crate::encode::convert::{pad_frame, padded_picture, to_yuv420_8};
use crate::encode::reduce::{law_reduced_edge, scale_edge, scaled_edge};
use crate::encode::{
    align_up, aligned, alignment, block_of, EncodeOptions, GainMapSpec, StillCodec,
};
use crate::error::{ErrorKind, HeifError, Outcome, Result};
use crate::image::{size_refusal, Chroma, FrameModel, HeifFrame, Picture};
use crate::miaf::MIN_TILE_EDGE;
use crate::props::{Colr, ColrModel};
use vstd::prelude::*;

verus! {

/// A picture to encode: padded to the block size of the codec, with the size it
/// is shown at, the colour information its bitstream signals and the ids of its
/// HEVC parameter sets.
#[derive(Debug)]
pub struct Job {
    /// The padded picture.
    pub frame: HeifFrame,
    /// Visible width and height.
    pub size: (u32, u32),
    /// Colour information of the bitstream.
    pub colr: Colr,
    /// Id of the HEVC parameter sets. The items of a file have their own ids:
    /// some readers refuse a file whose two items carry byte-identical
    /// parameter sets.
    pub parameter_sets: u8,
}

/// Model of [`Job`].
pub struct JobModel {
    /// The padded picture.
    pub picture: Picture,
    /// Visible width and height.
    pub size: (u32, u32),
    /// Colour information of the bitstream.
    pub colr: ColrModel,
    /// Id of the HEVC parameter sets.
    pub parameter_sets: u8,
}

impl View for Job {
    type V = JobModel;

    open spec fn view(&self) -> JobModel {
        JobModel {
            picture: self.frame@.picture(),
            size: self.size,
            colr: self.colr@,
            parameter_sets: self.parameter_sets,
        }
    }
}

impl Job {
    /// The picture is a frame and the visible size a size of a picture.
    pub open spec fn wf(self) -> bool {
        &&& self.frame@.wf()
        &&& size_refusal(self.size.0, self.size.1) is None
    }
}

/// Whether the pictures of a file keep their own depth and chroma: AV1 items
/// up to 12 bits do, all others are coded as 8-bit 4:2:0.
pub open spec fn native(codec: StillCodec, depth: u8) -> bool {
    codec == StillCodec::Av1 && depth <= 12
}

/// A picture as it is coded.
pub open spec fn coded_form(f: FrameModel, keep: bool) -> Picture {
    if keep {
        f.picture()
    } else {
        f.picture().reduced()
    }
}

/// A picture padded to the block size of the codec.
pub open spec fn job_of(f: Picture, codec: StillCodec, colr: ColrModel, sets: u8) -> Outcome<JobModel> {
    let a = block_of(codec) as int;
    match padded_picture(
        f,
        aligned(f.width as int, a) as u32,
        aligned(f.height as int, a) as u32,
    ) {
        Err(e) => Err(e),
        Ok(picture) => Ok(
            JobModel { picture, size: (f.width, f.height), colr, parameter_sets: sets },
        ),
    }
}

/// What contracts say of a job.
pub open spec fn job_outcome(r: Result<Job>) -> Outcome<JobModel> {
    match r {
        Ok(j) => Ok(j@),
        Err(e) => Err(e.kind()),
    }
}

/// What contracts say of a job that may not be needed.
pub open spec fn optional_job(r: Result<Option<Job>>) -> Outcome<Option<JobModel>> {
    match r {
        Ok(Some(j)) => Ok(Some(j@)),
        Ok(None) => Ok(None),
        Err(e) => Err(e.kind()),
    }
}

/// A job that is needed.
pub open spec fn needed(r: Outcome<JobModel>) -> Outcome<Option<JobModel>> {
    match r {
        Ok(j) => Ok(Some(j)),
        Err(e) => Err(e),
    }
}

proof fn lemma_edges(w: u32, h: u32)
    requires
        size_refusal(w, h) is None,
    ensures
        0 < w <= 0x4000_0000,
        0 < h <= 0x4000_0000,
{
    assert(w <= w * h && h <= w * h) by (nonlinear_arith)
        requires
            w >= 1,
            h >= 1,
    ;
}

fn make_job(f: &HeifFrame, codec: StillCodec, colr: Colr, sets: u8) -> (r: Result<Job>)
    requires
        f@.wf(),
    ensures
        job_outcome(r) == job_of(f@.picture(), codec, colr@, sets),
        r matches Ok(j) ==> j.wf(),
{
    proof {
        lemma_edges(f.width, f.height);
        lemma_aligned(f.width as int, block_of(codec) as int);
        lemma_aligned(f.height as int, block_of(codec) as int);
    }
    let a: u32 = match codec {
        StillCodec::Hevc => 16,
        StillCodec::Av1 => 8,
    };
    let frame: HeifFrame = pad_frame(f, align_up(f.width, a), align_up(f.height, a))?;
    Ok(Job { frame, size: (f.width, f.height), colr, parameter_sets: sets })
}

fn form_of(f: &HeifFrame, keep: bool) -> (r: Result<HeifFrame>)
    requires
        f@.wf(),
    ensures
        r matches Ok(out) && out@.wf() && out@.picture() == coded_form(f@, keep),
{
    if keep {
        Ok(f.clone())
    } else {
        to_yuv420_8(f)
    }
}

/// The colour picture of a frame as it is coded: the colour planes at their own
/// depth and chroma for AV1 up to 12 bits, else 8-bit 4:2:0.
pub fn colour_picture(frame: &HeifFrame, opts: &EncodeOptions) -> (r: Result<HeifFrame>)
    requires
        frame.format.wf(),
    ensures
        match frame@.refusal() {
            Some(k) => r matches Err(e) && e.kind() == k,
            None => r matches Ok(out) && out@.wf() && out@.picture() == coded_form(
                frame@.colour_only(),
                native(opts.codec, frame.format.bit_depth),
            ),
        },
{
    frame.validate()?;
    proof {
        lemma_colour_only(frame@);
    }
    let keep: bool = opts.codec == StillCodec::Av1 && frame.format.bit_depth <= 12;
    form_of(&frame.without_alpha(), keep)
}

/// How the master is coded.
#[derive(Debug)]
pub enum MasterPlan {
    /// As one item.
    Single(Job),
    /// As a grid of tiles.
    Grid(GridDescriptor, Vec<HeifFrame>),
}

/// Model of [`MasterPlan`].
pub enum MasterModel {
    /// As one item.
    Single(JobModel),
    /// As a grid of tiles.
    Grid(GridDescriptor, Seq<Picture>),
}

impl View for MasterPlan {
    type V = MasterModel;

    open spec fn view(&self) -> MasterModel {
        match self {
            MasterPlan::Single(j) => MasterModel::Single(j@),
            MasterPlan::Grid(g, tiles) => MasterModel::Grid(
                *g,
                crate::compose::grid::frames(tiles@),
            ),
        }
    }
}

/// The edge of the tiles of a grid: at least 64 pixels (MIAF §7.3.11.4.2),
/// aligned to the codec block size on both axes; `None` when the picture is no
/// larger than a tile and becomes one item.
pub open spec fn tile_edge(c: Picture, opts: EncodeOptions) -> Option<int> {
    match opts.grid_tile {
        Some(t) => if t > 0 && (c.width > t || c.height > t) {
            Some(
                aligned(
                    if t > MIN_TILE_EDGE {
                        t as int
                    } else {
                        MIN_TILE_EDGE as int
                    },
                    2 * block_of(opts.codec),
                ),
            )
        } else {
            None
        },
        None => None,
    }
}

/// How many tiles of edge `tile` cover `v` pixels.
pub open spec fn tiles_over(v: int, tile: int) -> int {
    (v + tile - 1) / tile
}

/// Tile `i` of a picture cut into columns of square tiles, row by row.
pub open spec fn tile_at(f: Picture, tile: int, columns: int, i: int) -> Picture {
    f.cut(i % columns * tile, i / columns * tile, tile as u32, tile as u32)
}

/// How the master of a colour picture is coded.
pub open spec fn master_of(c: Picture, opts: EncodeOptions) -> Outcome<MasterModel> {
    match tile_edge(c, opts) {
        None => match job_of(c, opts.codec, opts.colr@, 0) {
            Err(e) => Err(e),
            Ok(j) => Ok(MasterModel::Single(j)),
        },
        Some(tile) => {
            let columns = tiles_over(c.width as int, tile);
            let rows = tiles_over(c.height as int, tile);
            if rows > 256 || columns > 256 {
                Err(ErrorKind::Invalid)
            } else {
                match padded_picture(c, (columns * tile) as u32, (rows * tile) as u32) {
                    Err(e) => Err(e),
                    Ok(p) => Ok(
                        MasterModel::Grid(
                            GridDescriptor {
                                rows: rows as u16,
                                columns: columns as u16,
                                output_width: c.width,
                                output_height: c.height,
                            },
                            Seq::new(
                                (rows * columns) as nat,
                                |i: int| tile_at(p, tile, columns, i),
                            ),
                        ),
                    ),
                }
            }
        },
    }
}

/// What contracts say of a plan.
pub open spec fn master_outcome(r: Result<MasterPlan>) -> Outcome<MasterModel> {
    match r {
        Ok(m) => Ok(m@),
        Err(e) => Err(e.kind()),
    }
}

/// How far the tiles of an axis reach.
pub proof fn lemma_tiles(v: int, tile: int)
    requires
        0 < v <= 0x4000_0000,
        0 < tile <= 0x4000_0020,
    ensures
        1 <= tiles_over(v, tile) <= v,
        tiles_over(v, tile) * tile < v + tile,
        v <= tiles_over(v, tile) * tile,
{
    let q = tiles_over(v, tile);
    assert(1 <= q && q <= v && q * tile < v + tile && v <= q * tile) by (nonlinear_arith)
        requires
            q == (v + tile - 1) / tile,
            v > 0,
            tile > 0,
    ;
}

/// The edge of a tile is even and not too large.
pub proof fn lemma_tile_edge(c: Picture, opts: EncodeOptions)
    requires
        size_refusal(c.width, c.height) is None,
        tile_edge(c, opts) is Some,
    ensures
        0 < tile_edge(c, opts)->0 <= 0x4000_0020,
        (tile_edge(c, opts)->0) % 2 == 0,
        0 < c.width <= 0x4000_0000,
        0 < c.height <= 0x4000_0000,
{
    lemma_edges(c.width, c.height);
    if let Some(t) = opts.grid_tile {
        let edge: int = if t > MIN_TILE_EDGE {
            t as int
        } else {
            MIN_TILE_EDGE as int
        };
        lemma_aligned(edge, 2 * block_of(opts.codec));
    }
}

proof fn lemma_aligned(v: int, n: int)
    requires
        0 < v,
        n == 16 || n == 32 || n == 8,
    ensures
        v <= aligned(v, n) < v + n,
        aligned(v, n) % n == 0,
        aligned(v, n) % 2 == 0,
{
}

#[verifier::rlimit(40)]
fn cut_tiles(padded: &HeifFrame, tile: u32, columns: u32, rows: u32) -> (r: Result<Vec<HeifFrame>>)
    requires
        padded@.wf(),
        0 < tile,
        tile % 2 == 0,
        1 <= columns <= 256,
        1 <= rows <= 256,
        columns * tile == padded.width,
        rows * tile == padded.height,
    ensures
        r matches Ok(v) && {
            &&& crate::compose::grid::frames(v@) == Seq::new(
                (rows * columns) as nat,
                |i: int| tile_at(padded@.picture(), tile as int, columns as int, i),
            )
            &&& forall|i: int| 0 <= i < v@.len() ==> (#[trigger] v@[i])@.wf()
        },
{
    let ghost pic = padded@.picture();
    let mut out: Vec<HeifFrame> = Vec::new();
    for row in 0..rows
        invariant
            padded@.wf(),
            pic == padded@.picture(),
            0 < tile,
            tile % 2 == 0,
            1 <= columns <= 256,
            1 <= rows <= 256,
            columns * tile == padded.width,
            rows * tile == padded.height,
            out@.len() == row * columns,
            forall|i: int| 0 <= i < out@.len() ==> (#[trigger] out@[i])@.wf(),
            forall|i: int|
                0 <= i < out@.len() ==> (#[trigger] out@[i])@.picture() == tile_at(
                    pic,
                    tile as int,
                    columns as int,
                    i,
                ),
    {
        for col in 0..columns
            invariant
                padded@.wf(),
                pic == padded@.picture(),
                0 < tile,
                tile % 2 == 0,
                1 <= columns <= 256,
                1 <= rows <= 256,
                columns * tile == padded.width,
                rows * tile == padded.height,
                row < rows,
                out@.len() == row * columns + col,
                forall|i: int| 0 <= i < out@.len() ==> (#[trigger] out@[i])@.wf(),
                forall|i: int|
                    0 <= i < out@.len() ==> (#[trigger] out@[i])@.picture() == tile_at(
                        pic,
                        tile as int,
                        columns as int,
                        i,
                    ),
        {
            proof {
                lemma_tile_place(col as int, columns as int, tile as int);
                lemma_tile_place(row as int, rows as int, tile as int);
                vstd::arithmetic::div_mod::lemma_fundamental_div_mod_converse(
                    row * columns + col,
                    columns as int,
                    row as int,
                    col as int,
                );
            }
            let t: HeifFrame = crop(padded, col * tile, row * tile, tile, tile)?;
            out.push(t);
        }
        proof {
            assert(row * columns + columns == (row + 1) * columns) by (nonlinear_arith);
        }
    }
    assert(crate::compose::grid::frames(out@) =~= Seq::new(
        (rows * columns) as nat,
        |i: int| tile_at(pic, tile as int, columns as int, i),
    ));
    Ok(out)
}

/// Where tile `i` of `n` lies: on even positions, inside the picture.
proof fn lemma_tile_place(i: int, n: int, tile: int)
    requires
        0 <= i < n,
        0 < tile,
        tile % 2 == 0,
    ensures
        0 <= i * tile,
        i * tile + tile <= n * tile,
        (i * tile) % 2 == 0,
{
    assert(0 <= i * tile && i * tile + tile <= n * tile) by (nonlinear_arith)
        requires
            0 <= i < n,
            0 < tile,
    ;
    let k = tile / 2;
    assert(i * tile == 2 * (i * k)) by (nonlinear_arith)
        requires
            tile == 2 * k,
    ;
}

/// Decide how the master of a colour picture is coded: as one item, or as a
/// grid of tiles when it is larger than the tile size of `opts`.
pub fn master_plan(colour: &HeifFrame, opts: &EncodeOptions) -> (r: Result<MasterPlan>)
    requires
        colour@.wf(),
    ensures
        master_outcome(r) == master_of(colour@.picture(), *opts),
        r matches Ok(MasterPlan::Single(j)) ==> j.wf(),
        r matches Ok(MasterPlan::Grid(g, v)) ==> forall|i: int|
            0 <= i < v@.len() ==> (#[trigger] v@[i])@.wf(),
{
    proof {
        lemma_edges(colour.width, colour.height);
    }
    let wanted: u32 = match opts.grid_tile {
        Some(t) => if t > 0 && (colour.width > t || colour.height > t) {
            t
        } else {
            0
        },
        None => 0,
    };
    if wanted == 0 {
        return Ok(MasterPlan::Single(make_job(colour, opts.codec, opts.colr.clone(), 0)?));
    }
    let edge: u32 = if wanted > MIN_TILE_EDGE {
        wanted
    } else {
        MIN_TILE_EDGE
    };
    proof {
        lemma_aligned(edge as int, 2 * block_of(opts.codec));
    }
    let tile: u32 = align_up(edge, alignment(opts) * 2);
    proof {
        lemma_tiles(colour.width as int, tile as int);
        lemma_tiles(colour.height as int, tile as int);
    }
    let columns: u32 = ((colour.width as u64 + tile as u64 - 1) / tile as u64) as u32;
    let rows: u32 = ((colour.height as u64 + tile as u64 - 1) / tile as u64) as u32;
    if rows > 256 || columns > 256 {
        return Err(HeifError::invalid("grid: more than 256 rows or columns"));
    }
    let padded: HeifFrame = pad_frame(colour, columns * tile, rows * tile)?;
    let tiles: Vec<HeifFrame> = cut_tiles(&padded, tile, columns, rows)?;
    Ok(
        MasterPlan::Grid(
            GridDescriptor {
                rows: rows as u16,
                columns: columns as u16,
                output_width: colour.width,
                output_height: colour.height,
            },
            tiles,
        ),
    )
}

/// The colour information of an opacity: full range, no colour description.
pub open spec fn opacity_colr() -> ColrModel {
    ColrModel::Nclx { primaries: 2, transfer: 2, matrix: 2, full_range: true }
}

/// The alpha auxiliary: the alpha plane as a picture — monochrome for AV1,
/// monochrome-in-4:2:0 for HEVC.
pub open spec fn alpha_of(f: FrameModel, opts: EncodeOptions) -> Outcome<Option<JobModel>> {
    if !f.format.has_alpha {
        Ok(None)
    } else {
        needed(
            job_of(
                coded_form(f.alpha_frame(), native(opts.codec, f.format.bit_depth)),
                opts.codec,
                opacity_colr(),
                1,
            ),
        )
    }
}

/// The alpha plane of a frame is a frame.
proof fn lemma_alpha_frame(f: FrameModel)
    requires
        f.wf(),
        f.format.has_alpha,
    ensures
        f.alpha_frame().wf(),
{
    let a = f.alpha_frame();
    let c = f.format.chroma.planes();
    assert(a.planes[0] == f.planes[c]);
    assert(f.planes[c].holds(f.dims(c).0 * f.format.bps(), f.dims(c).1 as int));
}

/// The alpha auxiliary of a frame as a picture to encode.
pub fn alpha_job(frame: &HeifFrame, opts: &EncodeOptions) -> (r: Result<Option<Job>>)
    requires
        frame@.wf(),
    ensures
        optional_job(r) == alpha_of(frame@, *opts),
        r matches Ok(Some(j)) ==> j.wf(),
{
    match frame.alpha_as_frame() {
        None => Ok(None),
        Some(alpha) => {
            proof {
                lemma_alpha_frame(frame@);
            }
            let keep: bool = opts.codec == StillCodec::Av1 && frame.format.bit_depth <= 12;
            let src: HeifFrame = form_of(&alpha, keep)?;
            let colr: Colr = Colr::Nclx { primaries: 2, transfer: 2, matrix: 2, full_range: true };
            Ok(Some(make_job(&src, opts.codec, colr, 1)?))
        },
    }
}

/// The longer edge of a picture.
pub open spec fn longest(c: Picture) -> u32 {
    if c.width > c.height {
        c.width
    } else {
        c.height
    }
}

/// The thumbnail of a colour picture: scaled down so that its largest dimension
/// is the one asked for; none when the picture is no larger than that.
pub open spec fn thumbnail_of(c: Picture, opts: EncodeOptions) -> Outcome<Option<JobModel>> {
    match opts.thumbnail_max_dim {
        None => Ok(None),
        Some(d) => {
            let limit = if d > 1 {
                d
            } else {
                1
            };
            let m = longest(c);
            if m > limit {
                needed(
                    job_of(
                        c.resized(
                            scaled_edge(c.width as nat, m as nat, limit as nat) as u32,
                            scaled_edge(c.height as nat, m as nat, limit as nat) as u32,
                        ),
                        opts.codec,
                        opts.colr@,
                        0,
                    ),
                )
            } else {
                Ok(None)
            }
        },
    }
}

/// The thumbnail of a colour picture as a picture to encode.
pub fn thumbnail_job(colour: &HeifFrame, opts: &EncodeOptions) -> (r: Result<Option<Job>>)
    requires
        colour@.wf(),
    ensures
        optional_job(r) == thumbnail_of(colour@.picture(), *opts),
        r matches Ok(Some(j)) ==> j.wf(),
{
    let limit: u32 = match opts.thumbnail_max_dim {
        None => {
            return Ok(None);
        },
        Some(d) => if d > 1 {
            d
        } else {
            1
        },
    };
    let m: u32 = if colour.width > colour.height {
        colour.width
    } else {
        colour.height
    };
    if m <= limit {
        return Ok(None);
    }
    proof {
        lemma_edges(colour.width, colour.height);
        law_reduced_edge(colour.width as nat, m as nat, limit as nat);
        law_reduced_edge(colour.height as nat, m as nat, limit as nat);
    }
    let tw: u32 = scale_edge(colour.width, m, limit);
    let th: u32 = scale_edge(colour.height, m, limit);
    proof {
        crate::compose::lemma_smaller(tw, th, colour.width, colour.height);
    }
    let small: HeifFrame = resize_nearest(colour, tw, th)?;
    Ok(Some(make_job(&small, opts.codec, opts.colr.clone(), 0)?))
}

/// The colour information of a stored gain map: no primaries and no transfer,
/// the matrix of a colour map and the range of the map.
pub open spec fn gain_map_colr(gm: GainMapSpec) -> ColrModel {
    ColrModel::Nclx {
        primaries: 2,
        transfer: 2,
        matrix: if gm.frame.format.chroma == Chroma::Mono {
            2
        } else {
            gm.gain_map_matrix
        },
        full_range: gm.gain_map_full_range,
    }
}

/// The gain map as a picture to encode, in the form (`keep`) of the master.
pub open spec fn gain_map_of(gm: GainMapSpec, codec: StillCodec, keep: bool) -> Outcome<JobModel> {
    match gm.frame@.refusal() {
        Some(e) => Err(e),
        None => job_of(coded_form(gm.frame@.colour_only(), keep), codec, gain_map_colr(gm), 2),
    }
}

/// The colour information of a stored gain map.
pub(crate) fn stored_colr(gm: &GainMapSpec) -> (r: Colr)
    ensures
        r@ == gain_map_colr(*gm),
{
    Colr::Nclx {
        primaries: 2,
        transfer: 2,
        matrix: if gm.frame.format.chroma == Chroma::Mono {
            2
        } else {
            gm.gain_map_matrix
        },
        full_range: gm.gain_map_full_range,
    }
}

/// The gain map as a picture to encode. It is coded in the form of the master:
/// at its own depth and chroma when `master_depth` is one that AV1 keeps, else
/// as 8-bit 4:2:0.
pub fn gain_map_job(gm: &GainMapSpec, codec: StillCodec, master_depth: u8) -> (r: Result<Job>)
    requires
        gm.frame.format.wf(),
    ensures
        job_outcome(r) == gain_map_of(*gm, codec, native(codec, master_depth)),
        r matches Ok(j) ==> j.wf(),
{
    gm.frame.validate()?;
    proof {
        lemma_colour_only(gm.frame@);
    }
    let keep: bool = codec == StillCodec::Av1 && master_depth <= 12;
    let src: HeifFrame = form_of(&gm.frame.without_alpha(), keep)?;
    make_job(&src, codec, stored_colr(gm), 2)
}

} // verus!
