//! What holds of the transformations together.
use crate::compose::{
    cropped, frame_through, law_frame_picture_bounded, law_mirror_twice, odd_chroma, rescaled_frame,
    rescaled_sample, rotated, transformed_frame,
};
use crate::error::ErrorKind;
use crate::image::{
    law_frame_of_picture, law_packed_frame, lemma_valid_picture, max_of_depth, Chroma, FrameModel,
    HeifPixelFormat, Picture,
};
use crate::props::PropertyEntryModel;
use vstd::arithmetic::power2::pow2;
use vstd::prelude::*;

verus! {

/// A quarter turn is anti-clockwise, of luma, chroma and alpha alike: seen in 4:4:4,
/// the sample at `(x, y)` goes to `(y, w - 1 - x)`, and the sides are exchanged.
#[verifier::rlimit(50)]
pub proof fn law_quarter_turn(f: Picture)
    requires
        f.bounded(),
    ensures
        rotated(f, 1).width == f.height,
        rotated(f, 1).height == f.width,
        forall|p: int, x: int, y: int|
            0 <= x < f.width && 0 <= y < f.height ==> (rotated(f, 1).promoted().at)(
                p,
                y,
                f.width - 1 - x,
            ) == #[trigger] (f.promoted().at)(p, x, y),
{
    let g = rotated(f, 1);
    let (a, b) = (g.promoted(), f.promoted());
    assert forall|p: int, x: int, y: int| 0 <= x < f.width && 0 <= y < f.height implies (a.at)(
        p,
        y,
        f.width - 1 - x,
    ) == #[trigger] (b.at)(p, x, y) by {
        if f.turn_promotes(1) {
            assert(g.format == b.format);
        } else {
            assert(g.format == f.format);
        }
    }
}

/// A crop succeeds exactly for a rectangle inside the picture. It has the size of the
/// rectangle, shows it, seen in 4:4:4, and keeps the chroma layout unless a side of
/// the rectangle is odd where chroma is halved.
#[verifier::rlimit(50)]
pub proof fn law_crop(f: Picture, x: u32, y: u32, w: u32, h: u32)
    requires
        f.bounded(),
    ensures
        cropped(f, x, y, w, h) is Ok <==> w >= 1 && h >= 1 && x + w <= f.width && y + h <= f.height,
        cropped(f, x, y, w, h) matches Ok(g) ==> {
            &&& g.width == w
            &&& g.height == h
            &&& g.format == (HeifPixelFormat {
                chroma: if odd_chroma(
                    f.format.chroma,
                    x % 2 == 1 || w % 2 == 1,
                    y % 2 == 1 || h % 2 == 1,
                ) {
                    Chroma::Yuv444
                } else {
                    f.format.chroma
                },
                ..f.format
            })
            &&& forall|p: int, i: int, j: int|
                0 <= i < w && 0 <= j < h ==> #[trigger] (g.promoted().at)(p, i, j) == (
                f.promoted().at)(p, x + i, y + j)
        },
{
    if let Ok(g) = cropped(f, x, y, w, h) {
        let (a, b) = (g.promoted(), f.promoted());
        assert forall|p: int, i: int, j: int| 0 <= i < w && 0 <= j < h implies #[trigger] (a.at)(
            p,
            i,
            j,
        ) == (b.at)(p, x + i, y + j) by {
            assert(g.format == b.format || g.format == f.format);
        }
    }
}

/// Mirroring a frame keeps its size and layout, takes each sample from its place
/// across the axis, and mirroring it again gives the frame back, packed.
#[verifier::rlimit(50)]
pub proof fn law_mirror_twice_frame(f: FrameModel, left_right: bool)
    requires
        f.wf(),
    ensures
        ({
            let g = f.picture().mirrored(left_right).frame();
            &&& g.width == f.width
            &&& g.height == f.height
            &&& g.format == f.format
            &&& forall|p: int, x: int, y: int|
                f.has(p, x, y) ==> #[trigger] g.sample(p, x, y) == (if left_right {
                    f.sample(p, f.dims(p).0 - 1 - x, y)
                } else {
                    f.sample(p, x, f.dims(p).1 - 1 - y)
                })
            &&& g.picture().mirrored(left_right).frame() == f.picture().frame()
        }),
{
    let m = f.picture().mirrored(left_right);
    let g = m.frame();
    law_frame_picture_bounded(f);
    lemma_valid_picture(f);
    assert forall|p: int, x: int, y: int| m.format.stored(#[trigger] (m.at)(p, x, y)) == (m.at)(
        p,
        x,
        y,
    ) by {
        let q = f.picture();
        assert(q.format.stored((q.at)(p, f.dims(p).0 - 1 - x, y)) == (q.at)(
            p,
            f.dims(p).0 - 1 - x,
            y,
        ));
        assert(q.format.stored((q.at)(p, x, f.dims(p).1 - 1 - y)) == (q.at)(
            p,
            x,
            f.dims(p).1 - 1 - y,
        ));
    }
    law_frame_of_picture(m);
    law_mirror_twice(f.picture(), left_right);
    assert forall|p: int, x: int, y: int| f.has(p, x, y) implies #[trigger] g.sample(p, x, y) == (
    if left_right {
        f.sample(p, f.dims(p).0 - 1 - x, y)
    } else {
        f.sample(p, x, f.dims(p).1 - 1 - y)
    }) by {
        assert((g.picture().at)(p, x, y) == (m.at)(p, x, y));
        assert((g.picture().at)(p, x, y) == g.sample(p, x, y));
    }
}

/// The frame after two chains is that after the second, of what the first gives.
proof fn lemma_chain(
    f: FrameModel,
    a: Seq<PropertyEntryModel>,
    b: Seq<PropertyEntryModel>,
    i: int,
    essential_only: bool,
)
    requires
        0 <= i <= a.len(),
    ensures
        transformed_frame(f, a + b, i, essential_only) == (match transformed_frame(
            f,
            a,
            i,
            essential_only,
        ) {
            Ok(g) => transformed_frame(g, b, 0, essential_only),
            Err(e) => Err(e),
        }),
    decreases a.len() - i,
{
    if i < a.len() {
        assert((a + b)[i] == a[i]);
        if essential_only && !a[i].essential {
            lemma_chain(f, a, b, i + 1, essential_only);
        } else if let Ok(next) = frame_through(f, a[i].property) {
            lemma_chain(next, a, b, i + 1, essential_only);
        }
    } else {
        lemma_tail(f, a, b, 0, essential_only);
    }
}

proof fn lemma_tail(
    f: FrameModel,
    a: Seq<PropertyEntryModel>,
    b: Seq<PropertyEntryModel>,
    i: int,
    essential_only: bool,
)
    requires
        0 <= i <= b.len(),
    ensures
        transformed_frame(f, a + b, a.len() + i, essential_only) == transformed_frame(
            f,
            b,
            i,
            essential_only,
        ),
    decreases b.len() - i,
{
    if i < b.len() {
        assert((a + b)[a.len() + i] == b[i]);
        if essential_only && !b[i].essential {
            lemma_tail(f, a, b, i + 1, essential_only);
        } else if let Ok(next) = frame_through(f, b[i].property) {
            lemma_tail(next, a, b, i + 1, essential_only);
        }
    }
}

proof fn lemma_skipped(f: FrameModel, chain: Seq<PropertyEntryModel>, i: int, essential_only: bool)
    requires
        0 <= i <= chain.len(),
        forall|k: int| 0 <= k < chain.len() ==> essential_only && !(#[trigger] chain[k]).essential,
    ensures
        transformed_frame(f, chain, i, essential_only) == Ok::<FrameModel, ErrorKind>(f),
    decreases chain.len() - i,
{
    if i < chain.len() {
        assert(!chain[i].essential);
        lemma_skipped(f, chain, i + 1, essential_only);
    }
}

/// Chains of transformations compose: one after the other is both in one. A chain
/// that applies nothing gives the frame back as it is, and a scaling that is applied
/// is refused.
#[verifier::rlimit(50)]
pub proof fn law_chains_compose(
    f: FrameModel,
    a: Seq<PropertyEntryModel>,
    b: Seq<PropertyEntryModel>,
    essential_only: bool,
)
    ensures
        transformed_frame(f, a + b, 0, essential_only) == (match transformed_frame(
            f,
            a,
            0,
            essential_only,
        ) {
            Ok(g) => transformed_frame(g, b, 0, essential_only),
            Err(e) => Err(e),
        }),
        (forall|k: int|
            0 <= k < a.len() ==> essential_only && !(#[trigger] a[k]).essential)
            ==> transformed_frame(f, a, 0, essential_only) == Ok::<FrameModel, ErrorKind>(f),
        a.len() > 0 && a[0].property is Iscl && (a[0].essential || !essential_only)
            ==> transformed_frame(f, a, 0, essential_only) == Err::<FrameModel, ErrorKind>(
            ErrorKind::Unsupported,
        ),
{
    lemma_chain(f, a, b, 0, essential_only);
    if forall|k: int| 0 <= k < a.len() ==> essential_only && !(#[trigger] a[k]).essential {
        lemma_skipped(f, a, 0, essential_only);
    }
}

/// A sample that is widened and narrowed again is what it was.
proof fn lemma_wider(v: u16, from: u8, to: u8)
    requires
        8 <= from < to <= 16,
        v <= max_of_depth(from),
    ensures
        rescaled_sample(rescaled_sample(v, from, to), to, from) == v,
        rescaled_sample(v, from, to) == v * pow2((to - from) as nat),
{
    let s = (to - from) as nat;
    let k = pow2(s);
    vstd::arithmetic::power2::lemma2_to64();
    vstd::arithmetic::power2::lemma_pow2_adds(from as nat, s);
    vstd::arithmetic::power2::lemma_pow2_adds(1, (s - 1) as nat);
    vstd::arithmetic::power2::lemma_pow2_pos(s);
    vstd::arithmetic::power2::lemma_pow2_pos((s - 1) as nat);
    crate::image::lemma_two_to_bound(16);
    assert(0 <= v * k < pow2(from as nat) * k) by (nonlinear_arith)
        requires
            0 <= v < pow2(from as nat),
            k > 0,
    ;
    let r = pow2((s - 1) as nat) as int;
    vstd::arithmetic::div_mod::lemma_fundamental_div_mod_converse(
        v * k + r,
        k as int,
        v as int,
        r,
    );
}

/// Widening the samples of a packed frame and narrowing them again gives the frame
/// back.
#[verifier::rlimit(50)]
pub proof fn law_widen_then_narrow(f: FrameModel, depth: u8)
    requires
        f.wf(),
        f.packed(),
        forall|p: int, x: int, y: int|
            f.has(p, x, y) ==> #[trigger] f.sample(p, x, y) <= max_of_depth(f.format.bit_depth),
        f.format.bit_depth <= depth <= 16,
    ensures
        rescaled_frame(rescaled_frame(f, depth), f.format.bit_depth) == f,
{
    let from = f.format.bit_depth;
    if depth != from {
        let q = f.picture();
        let m = q.rescaled(depth);
        law_frame_picture_bounded(f);
        assert(m.valid());
        law_frame_of_picture(m);
        let back = m.rescaled(from);
        assert forall|p: int, x: int, y: int| #[trigger] (back.at)(p, x, y) == (q.at)(p, x, y) by {
            if f.has(p, x, y) {
                assert(f.sample(p, x, y) <= max_of_depth(from));
                lemma_wider(f.sample(p, x, y), from, depth);
                assert((q.at)(p, x, y) == f.sample(p, x, y));
                assert((m.at)(p, x, y) == rescaled_sample((q.at)(p, x, y), from, depth));
            }
        }
        assert(back =~= q);
        law_packed_frame(f);
    }
}

} // verus!
