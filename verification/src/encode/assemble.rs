//! A still image from its frame to the items of its file.
use crate::encode::av1::{
    av1_codes, coded_quality, encode_av1_picture, named_speed, request_of, Speed,
};
use crate::encode::hevc::{encode_hevc, hevc_codes};
use crate::encode::items::{
    attached_steps, gain_map_steps, hevc_options, hevc_options_of, master_steps, picture_models,
    shown_model, step_models, still_steps, CodedMaster, CodedMasterModel, Shown, ShownModel, Step,
    StepModel,
};
use crate::encode::still::{
    alpha_job, alpha_of, coded_form, colour_picture, gain_map_job, gain_map_of, master_of,
    master_plan, native, needed, thumbnail_job, thumbnail_of, Job, JobModel, MasterModel,
    MasterPlan,
};
use crate::encode::{CodedPicture, CodedPictureModel, EncodeOptions, StillCodec};
use crate::error::{view_outcome, ErrorKind, HeifError, Outcome, Result};
use crate::derived::GridDescriptor;
use crate::image::{Chroma, FrameModel, HeifFrame, Picture};
use crate::props::{Colr, ColrModel};
use vstd::prelude::*;

verus! {

/// A coded picture whose size can be written; others are refused.
pub open spec fn writable(r: Outcome<CodedPictureModel>) -> Outcome<CodedPictureModel> {
    match r {
        Ok(p) => if p.fits() {
            Ok(p)
        } else {
            Err(ErrorKind::Invalid)
        },
        Err(e) => Err(e),
    }
}

/// Whether `out` is a picture coded with the codec of the options.
pub open spec fn codes_to(
    f: Picture,
    colr: ColrModel,
    sets: u8,
    opts: EncodeOptions,
    out: Outcome<CodedPictureModel>,
) -> bool {
    match opts.codec {
        StillCodec::Hevc => exists|x: Outcome<CodedPictureModel>|
            {
                &&& #[trigger] hevc_codes(f, hevc_options_of(colr, sets, opts), x)
                &&& out == writable(x)
            },
        StillCodec::Av1 => exists|x: Outcome<CodedPictureModel>|
            {
                &&& #[trigger] av1_codes(f, opts, x)
                &&& out == writable(x)
            },
    }
}

/// Code one picture whose bitstream signals `colr`, with the codec of the
/// options; `parameter_sets` is the id of its HEVC parameter sets.
pub fn encode_picture_for(
    frame: &HeifFrame,
    colr: &Colr,
    parameter_sets: u8,
    opts: &EncodeOptions,
) -> (r: Result<CodedPicture>)
    requires
        frame@.wf(),
    ensures
        codes_to(frame@.picture(), colr@, parameter_sets, *opts, view_outcome(r)),
        r matches Ok(p) ==> p.wf(),
{
    let coded: Result<CodedPicture> = match opts.codec {
        StillCodec::Hevc => {
            let options: Vec<(String, String)> = hevc_options(colr, parameter_sets, opts);
            encode_hevc(frame, &options)
        },
        StillCodec::Av1 => encode_av1_picture(frame, opts),
    };
    assert(codes_to(
        frame@.picture(),
        colr@,
        parameter_sets,
        *opts,
        writable(view_outcome(coded)),
    ));
    let pic: CodedPicture = coded?;
    if pic.coded_width > 0x7fff_ffff || pic.coded_height > 0x7fff_ffff {
        return Err(HeifError::invalid("coded picture size out of range"));
    }
    Ok(pic)
}

/// A job done, from its coded picture: it comes with the size it is shown at.
pub open spec fn shown_at(x: Outcome<CodedPictureModel>, size: (u32, u32)) -> Outcome<ShownModel> {
    match x {
        Err(e) => Err(e),
        Ok(picture) => Ok(ShownModel { picture, size }),
    }
}

/// Whether `out` is a job done.
pub open spec fn job_done(j: JobModel, opts: EncodeOptions, out: Outcome<ShownModel>) -> bool {
    exists|x: Outcome<CodedPictureModel>|
        {
            &&& #[trigger] codes_to(j.picture, j.colr, j.parameter_sets, opts, x)
            &&& out == shown_at(x, j.size)
        }
}

/// A job that was needed, done.
pub open spec fn wanted(x: Outcome<ShownModel>) -> Outcome<Option<ShownModel>> {
    match x {
        Err(e) => Err(e),
        Ok(s) => Ok(Some(s)),
    }
}

/// Whether `out` is a job that may not be needed, done.
pub open spec fn optional_done(
    r: Outcome<Option<JobModel>>,
    opts: EncodeOptions,
    out: Outcome<Option<ShownModel>>,
) -> bool {
    match r {
        Err(e) => out == Err::<Option<ShownModel>, ErrorKind>(e),
        Ok(None) => out == Ok::<Option<ShownModel>, ErrorKind>(None),
        Ok(Some(j)) => exists|x: Outcome<ShownModel>|
            #[trigger] job_done(j, opts, x) && out == wanted(x),
    }
}

proof fn lemma_small(w: u32, h: u32)
    requires
        crate::image::size_refusal(w, h) is None,
    ensures
        w <= i32::MAX,
        h <= i32::MAX,
{
    assert(w <= w * h && h <= w * h) by (nonlinear_arith)
        requires
            w >= 1,
            h >= 1,
    ;
}

fn do_job(job: &Job, opts: &EncodeOptions) -> (r: Result<Shown>)
    requires
        job.wf(),
    ensures
        job_done(job@, *opts, view_outcome(r)),
        r matches Ok(s) ==> s.wf(),
{
    proof {
        lemma_small(job.size.0, job.size.1);
    }
    let coded: Result<CodedPicture> = encode_picture_for(
        &job.frame,
        &job.colr,
        job.parameter_sets,
        opts,
    );
    proof {
        let j = job@;
        assert(codes_to(j.picture, j.colr, j.parameter_sets, *opts, view_outcome(coded)));
        assert(job_done(j, *opts, shown_at(view_outcome(coded), j.size)));
    }
    Ok(Shown { picture: coded?, size: job.size })
}

/// What contracts say of a picture that may not be needed.
pub open spec fn shown_outcome(r: Result<Option<Shown>>) -> Outcome<Option<ShownModel>> {
    match r {
        Ok(s) => Ok(shown_model(s)),
        Err(e) => Err(e.kind()),
    }
}

fn do_optional(job: Option<Job>, opts: &EncodeOptions) -> (r: Result<Option<Shown>>)
    requires
        job matches Some(j) ==> j.wf(),
    ensures
        match job {
            None => r == Ok::<Option<Shown>, HeifError>(None),
            Some(j) => match r {
                Ok(s) => s is Some && s->0.wf() && job_done(
                    j@,
                    *opts,
                    Ok::<ShownModel, ErrorKind>(s->0@),
                ),
                Err(e) => job_done(j@, *opts, Err::<ShownModel, ErrorKind>(e.kind())),
            },
        },
{
    match job {
        None => Ok(None),
        Some(j) => Ok(Some(do_job(&j, opts)?)),
    }
}

/// Whether `out` are the tiles from `i` on, coded, behind those in `acc`.
pub open spec fn tiles_done(
    v: Seq<Picture>,
    i: int,
    acc: Seq<CodedPictureModel>,
    opts: EncodeOptions,
    out: Outcome<Seq<CodedPictureModel>>,
) -> bool
    decreases v.len() - i,
{
    if 0 <= i < v.len() {
        exists|x: Outcome<CodedPictureModel>|
            {
                &&& #[trigger] codes_to(v[i], opts.colr@, 0, opts, x)
                &&& match x {
                    Err(e) => out == Err::<Seq<CodedPictureModel>, ErrorKind>(e),
                    Ok(p) => tiles_done(v, i + 1, acc.push(p), opts, out),
                }
            }
    } else {
        out == Ok::<Seq<CodedPictureModel>, ErrorKind>(acc)
    }
}

/// A master of one picture.
pub open spec fn single(x: Outcome<ShownModel>) -> Outcome<CodedMasterModel> {
    match x {
        Err(e) => Err(e),
        Ok(s) => Ok(CodedMasterModel::Single(s)),
    }
}

/// A master of tiles.
pub open spec fn gridded(g: GridDescriptor, x: Outcome<Seq<CodedPictureModel>>) -> Outcome<
    CodedMasterModel,
> {
    match x {
        Err(e) => Err(e),
        Ok(t) => Ok(CodedMasterModel::Grid(g, t)),
    }
}

/// Whether `out` is a grid, its tiles coded.
pub open spec fn grid_done(
    v: Seq<Picture>,
    opts: EncodeOptions,
    g: GridDescriptor,
    out: Outcome<CodedMasterModel>,
) -> bool {
    exists|x: Outcome<Seq<CodedPictureModel>>|
        #[trigger] tiles_done(v, 0, Seq::empty(), opts, x) && out == gridded(g, x)
}

/// Whether `out` is the master, coded.
pub open spec fn master_done(
    m: MasterModel,
    opts: EncodeOptions,
    out: Outcome<CodedMasterModel>,
) -> bool {
    match m {
        MasterModel::Single(j) => exists|x: Outcome<ShownModel>|
            #[trigger] job_done(j, opts, x) && out == single(x),
        MasterModel::Grid(g, v) => grid_done(v, opts, g, out),
    }
}

/// What contracts say of coded tiles.
pub open spec fn tiles_outcome(r: Result<Vec<CodedPicture>>) -> Outcome<Seq<CodedPictureModel>> {
    match r {
        Ok(v) => Ok(picture_models(v@)),
        Err(e) => Err(e.kind()),
    }
}

fn do_tiles(tiles: &Vec<HeifFrame>, opts: &EncodeOptions) -> (r: Result<Vec<CodedPicture>>)
    requires
        forall|i: int| 0 <= i < tiles@.len() ==> (#[trigger] tiles@[i])@.wf(),
    ensures
        tiles_done(
            crate::compose::grid::frames(tiles@),
            0,
            Seq::empty(),
            *opts,
            tiles_outcome(r),
        ),
{
    let ghost all = crate::compose::grid::frames(tiles@);
    let mut out: Vec<CodedPicture> = Vec::new();
    assert(picture_models(out@) =~= Seq::empty());
    let mut i: usize = 0;
    while i < tiles.len()
        invariant
            i <= tiles.len(),
            forall|k: int| 0 <= k < tiles@.len() ==> (#[trigger] tiles@[k])@.wf(),
            all == crate::compose::grid::frames(tiles@),
            forall|x: Outcome<Seq<CodedPictureModel>>| #[trigger]
                tiles_done(all, i as int, picture_models(out@), *opts, x) ==> tiles_done(
                    all,
                    0,
                    Seq::empty(),
                    *opts,
                    x,
                ),
        decreases tiles.len() - i,
    {
        assert(all[i as int] == tiles@[i as int]@.picture());
        let ghost before = picture_models(out@);
        let coded: Result<CodedPicture> = encode_picture_for(&tiles[i], &opts.colr, 0, opts);
        let ghost y = view_outcome(coded);
        assert(codes_to(all[i as int], opts.colr@, 0, *opts, y));
        match coded {
            Err(e) => {
                let r: Result<Vec<CodedPicture>> = Err(e);
                assert(tiles_done(all, i as int, before, *opts, tiles_outcome(r)));
                return r;
            },
            Ok(p) => {
                out.push(p);
                assert(picture_models(out@) =~= before.push(p@));
                assert forall|x: Outcome<Seq<CodedPictureModel>>| #[trigger]
                    tiles_done(all, i + 1, picture_models(out@), *opts, x) implies tiles_done(
                    all,
                    0,
                    Seq::empty(),
                    *opts,
                    x,
                ) by {
                    assert(tiles_done(all, i as int, before, *opts, x));
                }
                i += 1;
            },
        }
    }
    let r: Result<Vec<CodedPicture>> = Ok(out);
    assert(tiles_done(all, all.len() as int, picture_models(out@), *opts, tiles_outcome(r)));
    r
}

fn do_master(plan: MasterPlan, opts: &EncodeOptions) -> (r: Result<CodedMaster>)
    requires
        plan matches MasterPlan::Single(j) ==> j.wf(),
        plan matches MasterPlan::Grid(g, v) ==> forall|i: int|
            0 <= i < v@.len() ==> (#[trigger] v@[i])@.wf(),
    ensures
        master_done(plan@, *opts, view_outcome(r)),
        r matches Ok(CodedMaster::Single(s)) ==> s.wf(),
{
    let ghost m = plan@;
    match plan {
        MasterPlan::Single(j) => {
            let shown: Result<Shown> = do_job(&j, opts);
            assert(master_done(m, *opts, single(view_outcome(shown))));
            Ok(CodedMaster::Single(shown?))
        },
        MasterPlan::Grid(g, tiles) => {
            let coded: Result<Vec<CodedPicture>> = do_tiles(&tiles, opts);
            proof {
                let v = crate::compose::grid::frames(tiles@);
                let y = tiles_outcome(coded);
                assert(tiles_done(v, 0, Seq::empty(), *opts, y));
                assert(grid_done(v, *opts, g, gridded(g, y)));
                assert(master_done(m, *opts, gridded(g, y)));
            }
            Ok(CodedMaster::Grid(g, coded?))
        },
    }
}

/// Whether `out` is the gain map of the options, coded in the form of a master of
/// the given depth.
pub open spec fn gain_map_done(
    depth: u8,
    opts: EncodeOptions,
    out: Outcome<Option<ShownModel>>,
) -> bool {
    match opts.gain_map {
        None => out == Ok::<Option<ShownModel>, ErrorKind>(None),
        Some(gm) => optional_done(
            needed(gain_map_of(gm, opts.codec, native(opts.codec, depth))),
            opts,
            out,
        ),
    }
}

/// The pictures of a file, coded.
pub struct CodedFile {
    /// The colour picture.
    pub master: CodedMasterModel,
    /// The alpha picture.
    pub alpha: Option<ShownModel>,
    /// The thumbnail.
    pub thumbnail: Option<ShownModel>,
    /// The gain map.
    pub gain: Option<ShownModel>,
}

/// Whether `out` are the alpha, thumbnail and gain map of a frame, coded in this
/// order behind its colour picture.
pub open spec fn attachments_done(
    f: FrameModel,
    c: Picture,
    opts: EncodeOptions,
    master: CodedMasterModel,
    out: Outcome<CodedFile>,
) -> bool {
    exists|a: Outcome<Option<ShownModel>>|
        {
            &&& #[trigger] optional_done(alpha_of(f, opts), opts, a)
            &&& match a {
                Err(e) => out == Err::<CodedFile, ErrorKind>(e),
                Ok(alpha) => exists|t: Outcome<Option<ShownModel>>|
                    {
                        &&& #[trigger] optional_done(thumbnail_of(c, opts), opts, t)
                        &&& match t {
                            Err(e) => out == Err::<CodedFile, ErrorKind>(e),
                            Ok(thumbnail) => exists|g: Outcome<Option<ShownModel>>|
                                {
                                    &&& #[trigger] gain_map_done(f.format.bit_depth, opts, g)
                                    &&& out == (match g {
                                        Err(e) => Err(e),
                                        Ok(gain) => Ok(
                                            CodedFile { master, alpha, thumbnail, gain },
                                        ),
                                    })
                                },
                        }
                    },
            }
        }
}

/// Whether `out` are the pictures of the file of a frame, coded: the colour picture
/// first.
pub open spec fn pictures_done(f: FrameModel, c: Picture, opts: EncodeOptions, out: Outcome<CodedFile>) -> bool {
    match master_of(c, opts) {
        Err(e) => out == Err::<CodedFile, ErrorKind>(e),
        Ok(m) => exists|x: Outcome<CodedMasterModel>|
            {
                &&& #[trigger] master_done(m, opts, x)
                &&& match x {
                    Err(e) => out == Err::<CodedFile, ErrorKind>(e),
                    Ok(master) => attachments_done(f, c, opts, master, out),
                }
            },
    }
}

/// The steps that write the pictures of a file.
pub open spec fn file_steps(x: Outcome<CodedFile>, chroma: Chroma, opts: EncodeOptions) -> Outcome<
    Seq<StepModel>,
> {
    match x {
        Err(e) => Err(e),
        Ok(p) => Ok(
            master_steps(p.master, opts) + attached_steps(p.alpha, p.thumbnail, opts)
                + gain_map_steps(p.gain, chroma, opts) + seq![StepModel::Primary],
        ),
    }
}

/// Whether `out` are the steps that write the file of a frame.
pub open spec fn still_of(f: FrameModel, opts: EncodeOptions, out: Outcome<Seq<StepModel>>) -> bool {
    match f.refusal() {
        Some(e) => out == Err::<Seq<StepModel>, ErrorKind>(e),
        None => {
            let c = coded_form(f.colour_only(), native(opts.codec, f.format.bit_depth));
            exists|x: Outcome<CodedFile>|
                {
                    &&& #[trigger] pictures_done(f, c, opts, x)
                    &&& out == file_steps(x, c.format.chroma, opts)
                }
        },
    }
}

/// What contracts say of a list of steps.
pub open spec fn steps_outcome(r: Result<Vec<Step>>) -> Outcome<Seq<StepModel>> {
    match r {
        Ok(v) => Ok(step_models(v@)),
        Err(e) => Err(e.kind()),
    }
}

/// The pictures of a file, coded.
pub struct CodedPictures {
    /// The colour picture.
    pub master: CodedMaster,
    /// The alpha picture.
    pub alpha: Option<Shown>,
    /// The thumbnail.
    pub thumbnail: Option<Shown>,
    /// The gain map.
    pub gain: Option<Shown>,
}

impl View for CodedPictures {
    type V = CodedFile;

    open spec fn view(&self) -> CodedFile {
        CodedFile {
            master: self.master@,
            alpha: shown_model(self.alpha),
            thumbnail: shown_model(self.thumbnail),
            gain: shown_model(self.gain),
        }
    }
}

impl CodedPictures {
    /// Whether every picture can be written.
    pub open spec fn wf(&self) -> bool {
        &&& self.master matches CodedMaster::Single(s) ==> s.wf()
        &&& self.alpha matches Some(s) ==> s.wf()
        &&& self.thumbnail matches Some(s) ==> s.wf()
        &&& self.gain matches Some(s) ==> s.wf()
    }
}

fn code_attachments(
    frame: &HeifFrame,
    colour: &HeifFrame,
    opts: &EncodeOptions,
    master: CodedMaster,
) -> (r: Result<CodedPictures>)
    requires
        frame@.wf(),
        colour@.wf(),
        opts.gain_map matches Some(gm) ==> gm.frame.format.wf(),
        master matches CodedMaster::Single(s) ==> s.wf(),
    ensures
        attachments_done(frame@, colour@.picture(), *opts, master@, view_outcome(r)),
        r matches Ok(p) ==> p.wf(),
{
    let ghost c = colour@.picture();
    let ghost f = frame@;
    let wanted_alpha: Result<Option<Job>> = alpha_job(frame, opts);
    let alpha: Result<Option<Shown>> = match wanted_alpha {
        Err(e) => Err(e),
        Ok(j) => do_optional(j, opts),
    };
    assert(optional_done(alpha_of(f, *opts), *opts, shown_outcome(alpha)));
    let alpha: Option<Shown> = alpha?;
    let wanted_thumbnail: Result<Option<Job>> = thumbnail_job(colour, opts);
    let thumbnail: Result<Option<Shown>> = match wanted_thumbnail {
        Err(e) => Err(e),
        Ok(j) => do_optional(j, opts),
    };
    assert(optional_done(thumbnail_of(c, *opts), *opts, shown_outcome(thumbnail)));
    let thumbnail: Option<Shown> = thumbnail?;
    let gain: Result<Option<Shown>> = match &opts.gain_map {
        None => Ok(None),
        Some(gm) => match gain_map_job(gm, opts.codec, frame.format.bit_depth) {
            Err(e) => Err(e),
            Ok(job) => do_optional(Some(job), opts),
        },
    };
    assert(gain_map_done(f.format.bit_depth, *opts, shown_outcome(gain)));
    let gain: Option<Shown> = gain?;
    Ok(CodedPictures { master, alpha, thumbnail, gain })
}

/// Encode a frame as a still image: every picture of its file coded, and the
/// steps that write them. HEVC items are coded 8-bit 4:2:0; AV1 items keep the
/// picture's own depth and chroma up to 12 bits.
#[verifier::rlimit(40)]
pub fn encode_still<'a>(frame: &HeifFrame, opts: &'a EncodeOptions) -> (r: Result<Vec<Step<'a>>>)
    requires
        frame.format.wf(),
        opts.gain_map matches Some(gm) ==> gm.frame.format.wf(),
    ensures
        still_of(frame@, *opts, steps_outcome(r)),
{
    let colour: HeifFrame = colour_picture(frame, opts)?;
    let ghost c = colour@.picture();
    let planned: Result<MasterPlan> = master_plan(&colour, opts);
    let pictures: Result<CodedPictures> = match planned {
        Err(e) => Err(e),
        Ok(plan) => {
            let ghost m = plan@;
            let master: Result<CodedMaster> = do_master(plan, opts);
            assert(master_done(m, *opts, view_outcome(master)));
            match master {
                Err(e) => Err(e),
                Ok(m) => code_attachments(frame, &colour, opts, m),
            }
        },
    };
    assert(pictures_done(frame@, c, *opts, view_outcome(pictures)));
    let p: CodedPictures = pictures?;
    Ok(still_steps(&p.master, &p.alpha, &p.thumbnail, &p.gain, colour.format.chroma, opts))
}

/// Whether the encoder's answers depend on what it is handed alone.
pub open spec fn settled(opts: EncodeOptions) -> bool {
    opts.codec == StillCodec::Av1 && (named_speed(opts.av1_speed@) != Speed::Thorough
        || coded_quality(opts.av1_quality) == 100)
}

proof fn lemma_one_coding(
    f: Picture,
    colr: ColrModel,
    sets: u8,
    opts: EncodeOptions,
    a: Outcome<CodedPictureModel>,
    b: Outcome<CodedPictureModel>,
)
    requires
        settled(opts),
        codes_to(f, colr, sets, opts, a),
        codes_to(f, colr, sets, opts, b),
    ensures
        a == b,
{
    assert(!request_of(f, opts).weighs_activity());
}

proof fn lemma_one_job(j: JobModel, opts: EncodeOptions, a: Outcome<ShownModel>, b: Outcome<ShownModel>)
    requires
        settled(opts),
        job_done(j, opts, a),
        job_done(j, opts, b),
    ensures
        a == b,
{
    assert forall|x: Outcome<CodedPictureModel>, y: Outcome<CodedPictureModel>|
        #[trigger] codes_to(j.picture, j.colr, j.parameter_sets, opts, x) && #[trigger] codes_to(
            j.picture,
            j.colr,
            j.parameter_sets,
            opts,
            y,
        ) implies x == y by {
        lemma_one_coding(j.picture, j.colr, j.parameter_sets, opts, x, y);
    }
}

proof fn lemma_one_optional(
    r: Outcome<Option<JobModel>>,
    opts: EncodeOptions,
    a: Outcome<Option<ShownModel>>,
    b: Outcome<Option<ShownModel>>,
)
    requires
        settled(opts),
        optional_done(r, opts, a),
        optional_done(r, opts, b),
    ensures
        a == b,
{
    if let Ok(Some(j)) = r {
        assert forall|x: Outcome<ShownModel>, y: Outcome<ShownModel>|
            #[trigger] job_done(j, opts, x) && #[trigger] job_done(j, opts, y) implies x == y by {
            lemma_one_job(j, opts, x, y);
        }
    }
}

proof fn lemma_one_tiling(
    v: Seq<Picture>,
    i: int,
    acc: Seq<CodedPictureModel>,
    opts: EncodeOptions,
    a: Outcome<Seq<CodedPictureModel>>,
    b: Outcome<Seq<CodedPictureModel>>,
)
    requires
        settled(opts),
        tiles_done(v, i, acc, opts, a),
        tiles_done(v, i, acc, opts, b),
    ensures
        a == b,
    decreases v.len() - i,
{
    if 0 <= i < v.len() {
        let x = choose|x: Outcome<CodedPictureModel>|
            {
                &&& #[trigger] codes_to(v[i], opts.colr@, 0, opts, x)
                &&& match x {
                    Err(e) => a == Err::<Seq<CodedPictureModel>, ErrorKind>(e),
                    Ok(p) => tiles_done(v, i + 1, acc.push(p), opts, a),
                }
            };
        let y = choose|y: Outcome<CodedPictureModel>|
            {
                &&& #[trigger] codes_to(v[i], opts.colr@, 0, opts, y)
                &&& match y {
                    Err(e) => b == Err::<Seq<CodedPictureModel>, ErrorKind>(e),
                    Ok(p) => tiles_done(v, i + 1, acc.push(p), opts, b),
                }
            };
        lemma_one_coding(v[i], opts.colr@, 0, opts, x, y);
        if let Ok(p) = x {
            lemma_one_tiling(v, i + 1, acc.push(p), opts, a, b);
        }
    }
}

proof fn lemma_one_master(
    m: MasterModel,
    opts: EncodeOptions,
    a: Outcome<CodedMasterModel>,
    b: Outcome<CodedMasterModel>,
)
    requires
        settled(opts),
        master_done(m, opts, a),
        master_done(m, opts, b),
    ensures
        a == b,
{
    if let MasterModel::Single(j) = m {
        assert forall|x: Outcome<ShownModel>, y: Outcome<ShownModel>|
            #[trigger] job_done(j, opts, x) && #[trigger] job_done(j, opts, y) implies x == y by {
            lemma_one_job(j, opts, x, y);
        }
    }
    if let MasterModel::Grid(g, v) = m {
        let x = choose|x: Outcome<Seq<CodedPictureModel>>|
            #[trigger] tiles_done(v, 0, Seq::empty(), opts, x) && a == gridded(g, x);
        let y = choose|y: Outcome<Seq<CodedPictureModel>>|
            #[trigger] tiles_done(v, 0, Seq::empty(), opts, y) && b == gridded(g, y);
        lemma_one_tiling(v, 0, Seq::empty(), opts, x, y);
    }
}

/// With the AV1 codec a frame has one file, or is refused in one way, unless the
/// encoder makes its longest search of a picture that is not lossless: it may answer
/// differently then, as the HEVC encoder may.
#[verifier::rlimit(50)]
pub proof fn law_one_av1_still(
    f: FrameModel,
    opts: EncodeOptions,
    a: Outcome<Seq<StepModel>>,
    b: Outcome<Seq<StepModel>>,
)
    requires
        settled(opts),
        still_of(f, opts, a),
        still_of(f, opts, b),
    ensures
        a == b,
{
    if f.refusal() is None {
        let c = coded_form(f.colour_only(), native(opts.codec, f.format.bit_depth));
        if let Ok(m) = master_of(c, opts) {
            assert forall|x: Outcome<CodedMasterModel>, y: Outcome<CodedMasterModel>|
                #[trigger] master_done(m, opts, x) && #[trigger] master_done(m, opts, y) implies x
                == y by {
                lemma_one_master(m, opts, x, y);
            }
            assert forall|r: Outcome<Option<JobModel>>, x: Outcome<Option<ShownModel>>, y: Outcome<
                Option<ShownModel>,
            >|
                #[trigger] optional_done(r, opts, x) && #[trigger] optional_done(
                    r,
                    opts,
                    y,
                ) implies x == y by {
                lemma_one_optional(r, opts, x, y);
            }
        }
    }
}

} // verus!
