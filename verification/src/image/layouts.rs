//! Laws of sample layouts.
use crate::image::{coded_layout, sample_in, Chroma, HeifPixelFormat};
use vstd::prelude::*;

verus! {

/// The codes of a coded layout: 0 without chroma, 1 for 4:2:0, 2 for 4:2:2, 3 for 4:4:4,
/// and eight bits less than the depth, up to 16 bits; others are refused.
pub proof fn law_layout_codes(chroma: u8, depth: u8)
    ensures
        coded_layout(chroma, depth) is Ok <==> chroma <= 3 && depth <= 8,
        coded_layout(chroma, depth) matches Ok(f) ==> {
            &&& f.bit_depth == 8 + depth
            &&& !f.has_alpha
            &&& f.chroma == Chroma::Mono <==> chroma == 0
            &&& f.chroma == Chroma::Yuv420 <==> chroma == 1
            &&& f.chroma == Chroma::Yuv422 <==> chroma == 2
            &&& f.chroma == Chroma::Yuv444 <==> chroma == 3
        },
{
}

/// The planes of a `w × h` picture: luma and alpha as large as the picture, chroma half as
/// wide for 4:2:0 and 4:2:2 and half as high for 4:2:0, rounded up; and three colour planes,
/// one without chroma, with alpha behind them.
pub proof fn law_plane_sizes(f: HeifPixelFormat, w: u32, h: u32, p: int)
    ensures
        f.planes() == (if f.chroma == Chroma::Mono {
            1int
        } else {
            3
        }) + (if f.has_alpha {
            1int
        } else {
            0
        }),
        p == 0 ==> f.dims(p, w, h) == (w, h),
        p == 3 || (p == 1 && f.chroma == Chroma::Mono) ==> f.has_alpha ==> f.dims(p, w, h) == (w, h),
        (p == 1 || p == 2) && f.chroma == Chroma::Yuv444 ==> f.dims(p, w, h) == (w, h),
        (p == 1 || p == 2) && f.chroma == Chroma::Yuv422 ==> {
            &&& f.dims(p, w, h).1 == h
            &&& w <= 2 * f.dims(p, w, h).0 <= w + 1
        },
        (p == 1 || p == 2) && f.chroma == Chroma::Yuv420 ==> {
            &&& w <= 2 * f.dims(p, w, h).0 <= w + 1
            &&& h <= 2 * f.dims(p, w, h).1 <= h + 1
        },
{
}

/// A sample is stored in one byte up to 8 bits, else in two, the low byte first.
pub proof fn law_stored_sample(f: HeifPixelFormat, data: Seq<u8>, i: int, v: u16)
    requires
        0 <= i,
        f.bit_depth <= 8 ==> i < data.len() && data[i] == v,
        f.bit_depth > 8 ==> i + 1 < data.len() && data[i] == v % 256 && data[i + 1] == v / 256,
    ensures
        sample_in(data, i, f.bps()) == v,
        f.bps() == (if f.bit_depth <= 8 {
            1int
        } else {
            2
        }),
{
}

} // verus!
