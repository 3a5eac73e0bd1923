//! What a pixel of a picture looks like, whatever the chroma layout.
use crate::image::{half_up, Chroma, Picture};
use vstd::arithmetic::power2::pow2;
use vstd::prelude::*;

verus! {

/// Luma (0), Cb (1) or Cr (2) of the pixel at `(x, y)`: the luma sample of the pixel,
/// and the chroma sample that it shares with its neighbours; the middle value where
/// the picture has no chroma.
pub open spec fn seen(f: Picture, p: int, x: int, y: int) -> int {
    if p == 0 {
        (f.at)(0, x, y) as int
    } else {
        match f.format.chroma {
            Chroma::Mono => pow2((f.format.bit_depth - 1) as nat) as int,
            Chroma::Yuv420 => (f.at)(p, x / 2, y / 2) as int,
            Chroma::Yuv422 => (f.at)(p, x / 2, y) as int,
            Chroma::Yuv444 => (f.at)(p, x, y) as int,
        }
    }
}

/// The opacity of the pixel at `(x, y)`: its alpha sample, the largest value without
/// an alpha plane.
pub open spec fn seen_opacity(f: Picture, x: int, y: int) -> int {
    if !f.format.has_alpha {
        pow2(f.format.bit_depth as nat) - 1
    } else if f.format.chroma == Chroma::Mono {
        (f.at)(1, x, y) as int
    } else {
        (f.at)(3, x, y) as int
    }
}

/// The picture has a pixel at `(x, y)`.
pub open spec fn inside(f: Picture, x: int, y: int) -> bool {
    0 <= x < f.width && 0 <= y < f.height
}

/// The chroma sample of a pixel is one of its plane.
pub(crate) proof fn lemma_shared_sample(v: int, n: u32)
    requires
        0 <= v < n,
    ensures
        0 <= v / 2 < half_up(n),
{
}

/// The 4:4:4 picture looks the same at every pixel, and keeps size, depth and alpha.
pub proof fn law_promoted_looks_the_same(f: Picture)
    requires
        8 <= f.format.bit_depth <= 16,
    ensures
        f.promoted().width == f.width,
        f.promoted().height == f.height,
        f.promoted().format.chroma == Chroma::Yuv444,
        f.promoted().format.bit_depth == f.format.bit_depth,
        f.promoted().format.has_alpha == f.format.has_alpha,
        forall|p: int, x: int, y: int|
            0 <= p < 3 && inside(f, x, y) ==> #[trigger] seen(f.promoted(), p, x, y) == seen(
                f,
                p,
                x,
                y,
            ),
        forall|x: int, y: int|
            inside(f, x, y) ==> #[trigger] seen_opacity(f.promoted(), x, y) == seen_opacity(f, x, y),
{
    lemma_mid(f.format.bit_depth);
}

/// The middle value of a depth.
pub(crate) proof fn lemma_mid(depth: u8)
    requires
        8 <= depth <= 16,
    ensures
        (pow2(depth as nat) - 1 + 1) / 2 == pow2((depth - 1) as nat),
        pow2((depth - 1) as nat) <= 32768,
        128 <= pow2((depth - 1) as nat),
        pow2(depth as nat) == 2 * pow2((depth - 1) as nat),
{
    vstd::arithmetic::power2::lemma2_to64();
    vstd::arithmetic::power2::lemma_pow2_unfold(depth as nat);
    if depth < 16 {
        vstd::arithmetic::power2::lemma_pow2_strictly_increases((depth - 1) as nat, 15);
    }
    if depth > 8 {
        vstd::arithmetic::power2::lemma_pow2_strictly_increases(7, (depth - 1) as nat);
    }
}

} // verus!
