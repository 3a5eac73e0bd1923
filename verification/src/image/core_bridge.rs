//! The framework's view of a picture: its pixel formats and its frames, as far
//! as this crate exchanges them.
use crate::error::{view_outcome, ErrorKind, HeifError, Outcome, Result};
use crate::image::{Chroma, FrameModel, HeifFrame, HeifPixelFormat, HeifPlane, PlaneModel};
use crate::text::{concat, decimal};
use vstd::prelude::*;

verus! {

/// The framework pixel formats this crate consumes or emits.
#[derive(Clone, Copy, Debug, PartialEq, Eq, Hash, Structural)]
pub enum PixelFormat {
    /// 4:0:0, 8 bits.
    Gray8,
    /// 4:0:0, 10 bits.
    Gray10Le,
    /// 4:0:0, 12 bits.
    Gray12Le,
    /// 4:0:0, 16 bits.
    Gray16Le,
    /// 4:0:0, 8 bits, alpha.
    Ya8,
    /// 4:2:0, 8 bits.
    Yuv420P,
    /// 4:2:0, 10 bits.
    Yuv420P10Le,
    /// 4:2:0, 12 bits.
    Yuv420P12Le,
    /// 4:2:0, 16 bits.
    Yuv420P16Le,
    /// 4:2:0, 8 bits, alpha.
    Yuva420P,
    /// 4:2:0, 10 bits, alpha.
    Yuva420P10Le,
    /// 4:2:2, 8 bits.
    Yuv422P,
    /// 4:2:2, 10 bits.
    Yuv422P10Le,
    /// 4:2:2, 12 bits.
    Yuv422P12Le,
    /// 4:2:2, 16 bits.
    Yuv422P16Le,
    /// 4:2:2, 8 bits, alpha.
    Yuva422P,
    /// 4:2:2, 10 bits, alpha.
    Yuva422P10Le,
    /// 4:2:2, 12 bits, alpha.
    Yuva422P12Le,
    /// 4:2:2, 16 bits, alpha.
    Yuva422P16Le,
    /// 4:4:4, 8 bits.
    Yuv444P,
    /// 4:4:4, 10 bits.
    Yuv444P10Le,
    /// 4:4:4, 12 bits.
    Yuv444P12Le,
    /// 4:4:4, 16 bits.
    Yuv444P16Le,
    /// 4:4:4, 8 bits, alpha.
    Yuva444P,
    /// 4:4:4, 10 bits, alpha.
    Yuva444P10Le,
    /// 4:4:4, 12 bits, alpha.
    Yuva444P12Le,
    /// 4:4:4, 16 bits, alpha.
    Yuva444P16Le,
    /// 4:2:0, 8 bits, full range.
    YuvJ420P,
    /// 4:2:2, 8 bits, full range.
    YuvJ422P,
    /// 4:4:4, 8 bits, full range.
    YuvJ444P,
    /// Packed 8-bit R, G, B.
    Rgb24,
    /// Packed 8-bit R, G, B, A.
    Rgba,
    /// Packed 8-bit B, G, R.
    Bgr24,
    /// Packed 8-bit B, G, R, A.
    Bgra,
    /// Packed 16-bit R, G, B.
    Rgb48Le,
    /// Packed 16-bit R, G, B, A.
    Rgba64Le,
    /// Packed 16-bit grey and alpha.
    Ya16Le,
}

impl HeifPixelFormat {
    /// The framework pixel format for a layout, when one exists.
    pub open spec fn core_format(self) -> Option<PixelFormat> {
        match (self.chroma, self.bit_depth, self.has_alpha) {
            (Chroma::Mono, 8, false) => Some(PixelFormat::Gray8),
            (Chroma::Mono, 10, false) => Some(PixelFormat::Gray10Le),
            (Chroma::Mono, 12, false) => Some(PixelFormat::Gray12Le),
            (Chroma::Mono, 16, false) => Some(PixelFormat::Gray16Le),
            (Chroma::Mono, 8, true) => Some(PixelFormat::Ya8),
            (Chroma::Yuv420, 8, false) => Some(PixelFormat::Yuv420P),
            (Chroma::Yuv420, 10, false) => Some(PixelFormat::Yuv420P10Le),
            (Chroma::Yuv420, 12, false) => Some(PixelFormat::Yuv420P12Le),
            (Chroma::Yuv420, 16, false) => Some(PixelFormat::Yuv420P16Le),
            (Chroma::Yuv420, 8, true) => Some(PixelFormat::Yuva420P),
            (Chroma::Yuv420, 10, true) => Some(PixelFormat::Yuva420P10Le),
            (Chroma::Yuv422, 8, false) => Some(PixelFormat::Yuv422P),
            (Chroma::Yuv422, 10, false) => Some(PixelFormat::Yuv422P10Le),
            (Chroma::Yuv422, 12, false) => Some(PixelFormat::Yuv422P12Le),
            (Chroma::Yuv422, 16, false) => Some(PixelFormat::Yuv422P16Le),
            (Chroma::Yuv422, 8, true) => Some(PixelFormat::Yuva422P),
            (Chroma::Yuv422, 10, true) => Some(PixelFormat::Yuva422P10Le),
            (Chroma::Yuv422, 12, true) => Some(PixelFormat::Yuva422P12Le),
            (Chroma::Yuv422, 16, true) => Some(PixelFormat::Yuva422P16Le),
            (Chroma::Yuv444, 8, false) => Some(PixelFormat::Yuv444P),
            (Chroma::Yuv444, 10, false) => Some(PixelFormat::Yuv444P10Le),
            (Chroma::Yuv444, 12, false) => Some(PixelFormat::Yuv444P12Le),
            (Chroma::Yuv444, 16, false) => Some(PixelFormat::Yuv444P16Le),
            (Chroma::Yuv444, 8, true) => Some(PixelFormat::Yuva444P),
            (Chroma::Yuv444, 10, true) => Some(PixelFormat::Yuva444P10Le),
            (Chroma::Yuv444, 12, true) => Some(PixelFormat::Yuva444P12Le),
            (Chroma::Yuv444, 16, true) => Some(PixelFormat::Yuva444P16Le),
            _ => None,
        }
    }

    /// The layout of a framework pixel format, `None` for the packed ones.
    pub open spec fn of_core(f: PixelFormat) -> Option<HeifPixelFormat> {
        match f {
            PixelFormat::Gray8 => Some(
                HeifPixelFormat { chroma: Chroma::Mono, bit_depth: 8, has_alpha: false },
            ),
            PixelFormat::Gray10Le => Some(
                HeifPixelFormat { chroma: Chroma::Mono, bit_depth: 10, has_alpha: false },
            ),
            PixelFormat::Gray12Le => Some(
                HeifPixelFormat { chroma: Chroma::Mono, bit_depth: 12, has_alpha: false },
            ),
            PixelFormat::Gray16Le => Some(
                HeifPixelFormat { chroma: Chroma::Mono, bit_depth: 16, has_alpha: false },
            ),
            PixelFormat::Ya8 => Some(
                HeifPixelFormat { chroma: Chroma::Mono, bit_depth: 8, has_alpha: true },
            ),
            PixelFormat::Yuv420P => Some(
                HeifPixelFormat { chroma: Chroma::Yuv420, bit_depth: 8, has_alpha: false },
            ),
            PixelFormat::Yuv420P10Le => Some(
                HeifPixelFormat { chroma: Chroma::Yuv420, bit_depth: 10, has_alpha: false },
            ),
            PixelFormat::Yuv420P12Le => Some(
                HeifPixelFormat { chroma: Chroma::Yuv420, bit_depth: 12, has_alpha: false },
            ),
            PixelFormat::Yuv420P16Le => Some(
                HeifPixelFormat { chroma: Chroma::Yuv420, bit_depth: 16, has_alpha: false },
            ),
            PixelFormat::Yuva420P => Some(
                HeifPixelFormat { chroma: Chroma::Yuv420, bit_depth: 8, has_alpha: true },
            ),
            PixelFormat::Yuva420P10Le => Some(
                HeifPixelFormat { chroma: Chroma::Yuv420, bit_depth: 10, has_alpha: true },
            ),
            PixelFormat::Yuv422P => Some(
                HeifPixelFormat { chroma: Chroma::Yuv422, bit_depth: 8, has_alpha: false },
            ),
            PixelFormat::Yuv422P10Le => Some(
                HeifPixelFormat { chroma: Chroma::Yuv422, bit_depth: 10, has_alpha: false },
            ),
            PixelFormat::Yuv422P12Le => Some(
                HeifPixelFormat { chroma: Chroma::Yuv422, bit_depth: 12, has_alpha: false },
            ),
            PixelFormat::Yuv422P16Le => Some(
                HeifPixelFormat { chroma: Chroma::Yuv422, bit_depth: 16, has_alpha: false },
            ),
            PixelFormat::Yuva422P => Some(
                HeifPixelFormat { chroma: Chroma::Yuv422, bit_depth: 8, has_alpha: true },
            ),
            PixelFormat::Yuva422P10Le => Some(
                HeifPixelFormat { chroma: Chroma::Yuv422, bit_depth: 10, has_alpha: true },
            ),
            PixelFormat::Yuva422P12Le => Some(
                HeifPixelFormat { chroma: Chroma::Yuv422, bit_depth: 12, has_alpha: true },
            ),
            PixelFormat::Yuva422P16Le => Some(
                HeifPixelFormat { chroma: Chroma::Yuv422, bit_depth: 16, has_alpha: true },
            ),
            PixelFormat::Yuv444P => Some(
                HeifPixelFormat { chroma: Chroma::Yuv444, bit_depth: 8, has_alpha: false },
            ),
            PixelFormat::Yuv444P10Le => Some(
                HeifPixelFormat { chroma: Chroma::Yuv444, bit_depth: 10, has_alpha: false },
            ),
            PixelFormat::Yuv444P12Le => Some(
                HeifPixelFormat { chroma: Chroma::Yuv444, bit_depth: 12, has_alpha: false },
            ),
            PixelFormat::Yuv444P16Le => Some(
                HeifPixelFormat { chroma: Chroma::Yuv444, bit_depth: 16, has_alpha: false },
            ),
            PixelFormat::Yuva444P => Some(
                HeifPixelFormat { chroma: Chroma::Yuv444, bit_depth: 8, has_alpha: true },
            ),
            PixelFormat::Yuva444P10Le => Some(
                HeifPixelFormat { chroma: Chroma::Yuv444, bit_depth: 10, has_alpha: true },
            ),
            PixelFormat::Yuva444P12Le => Some(
                HeifPixelFormat { chroma: Chroma::Yuv444, bit_depth: 12, has_alpha: true },
            ),
            PixelFormat::Yuva444P16Le => Some(
                HeifPixelFormat { chroma: Chroma::Yuv444, bit_depth: 16, has_alpha: true },
            ),
            PixelFormat::YuvJ420P => Some(
                HeifPixelFormat { chroma: Chroma::Yuv420, bit_depth: 8, has_alpha: false },
            ),
            PixelFormat::YuvJ422P => Some(
                HeifPixelFormat { chroma: Chroma::Yuv422, bit_depth: 8, has_alpha: false },
            ),
            PixelFormat::YuvJ444P => Some(
                HeifPixelFormat { chroma: Chroma::Yuv444, bit_depth: 8, has_alpha: false },
            ),
            _ => None,
        }
    }

    /// The framework pixel format for this layout, when one exists.
    ///
    /// Monochrome + alpha above 8 bits and 4:2:0 12-bit + alpha
    /// have no framework layout; callers promote them with
    /// [`HeifFrame::to_core`]'s neutral-chroma 4:4:4 fallback.
    pub fn to_core(&self) -> (r: Option<PixelFormat>)
        ensures
            r == self.core_format(),
    {
        match (self.chroma, self.bit_depth, self.has_alpha) {
            (Chroma::Mono, 8, false) => Some(PixelFormat::Gray8),
            (Chroma::Mono, 10, false) => Some(PixelFormat::Gray10Le),
            (Chroma::Mono, 12, false) => Some(PixelFormat::Gray12Le),
            (Chroma::Mono, 16, false) => Some(PixelFormat::Gray16Le),
            (Chroma::Mono, 8, true) => Some(PixelFormat::Ya8),
            (Chroma::Yuv420, 8, false) => Some(PixelFormat::Yuv420P),
            (Chroma::Yuv420, 10, false) => Some(PixelFormat::Yuv420P10Le),
            (Chroma::Yuv420, 12, false) => Some(PixelFormat::Yuv420P12Le),
            (Chroma::Yuv420, 16, false) => Some(PixelFormat::Yuv420P16Le),
            (Chroma::Yuv420, 8, true) => Some(PixelFormat::Yuva420P),
            (Chroma::Yuv420, 10, true) => Some(PixelFormat::Yuva420P10Le),
            (Chroma::Yuv422, 8, false) => Some(PixelFormat::Yuv422P),
            (Chroma::Yuv422, 10, false) => Some(PixelFormat::Yuv422P10Le),
            (Chroma::Yuv422, 12, false) => Some(PixelFormat::Yuv422P12Le),
            (Chroma::Yuv422, 16, false) => Some(PixelFormat::Yuv422P16Le),
            (Chroma::Yuv422, 8, true) => Some(PixelFormat::Yuva422P),
            (Chroma::Yuv422, 10, true) => Some(PixelFormat::Yuva422P10Le),
            (Chroma::Yuv422, 12, true) => Some(PixelFormat::Yuva422P12Le),
            (Chroma::Yuv422, 16, true) => Some(PixelFormat::Yuva422P16Le),
            (Chroma::Yuv444, 8, false) => Some(PixelFormat::Yuv444P),
            (Chroma::Yuv444, 10, false) => Some(PixelFormat::Yuv444P10Le),
            (Chroma::Yuv444, 12, false) => Some(PixelFormat::Yuv444P12Le),
            (Chroma::Yuv444, 16, false) => Some(PixelFormat::Yuv444P16Le),
            (Chroma::Yuv444, 8, true) => Some(PixelFormat::Yuva444P),
            (Chroma::Yuv444, 10, true) => Some(PixelFormat::Yuva444P10Le),
            (Chroma::Yuv444, 12, true) => Some(PixelFormat::Yuva444P12Le),
            (Chroma::Yuv444, 16, true) => Some(PixelFormat::Yuva444P16Le),
            _ => None,
        }
    }

    /// The layout of a framework pixel format, for the planar
    /// YCbCr / gray formats this crate consumes.
    pub fn from_core(f: PixelFormat) -> (r: Option<Self>)
        ensures
            r == HeifPixelFormat::of_core(f),
            r matches Some(x) ==> x.wf(),
    {
        match f {
            PixelFormat::Gray8 => Some(
                HeifPixelFormat { chroma: Chroma::Mono, bit_depth: 8, has_alpha: false },
            ),
            PixelFormat::Gray10Le => Some(
                HeifPixelFormat { chroma: Chroma::Mono, bit_depth: 10, has_alpha: false },
            ),
            PixelFormat::Gray12Le => Some(
                HeifPixelFormat { chroma: Chroma::Mono, bit_depth: 12, has_alpha: false },
            ),
            PixelFormat::Gray16Le => Some(
                HeifPixelFormat { chroma: Chroma::Mono, bit_depth: 16, has_alpha: false },
            ),
            PixelFormat::Ya8 => Some(
                HeifPixelFormat { chroma: Chroma::Mono, bit_depth: 8, has_alpha: true },
            ),
            PixelFormat::Yuv420P => Some(
                HeifPixelFormat { chroma: Chroma::Yuv420, bit_depth: 8, has_alpha: false },
            ),
            PixelFormat::Yuv420P10Le => Some(
                HeifPixelFormat { chroma: Chroma::Yuv420, bit_depth: 10, has_alpha: false },
            ),
            PixelFormat::Yuv420P12Le => Some(
                HeifPixelFormat { chroma: Chroma::Yuv420, bit_depth: 12, has_alpha: false },
            ),
            PixelFormat::Yuv420P16Le => Some(
                HeifPixelFormat { chroma: Chroma::Yuv420, bit_depth: 16, has_alpha: false },
            ),
            PixelFormat::Yuva420P => Some(
                HeifPixelFormat { chroma: Chroma::Yuv420, bit_depth: 8, has_alpha: true },
            ),
            PixelFormat::Yuva420P10Le => Some(
                HeifPixelFormat { chroma: Chroma::Yuv420, bit_depth: 10, has_alpha: true },
            ),
            PixelFormat::Yuv422P => Some(
                HeifPixelFormat { chroma: Chroma::Yuv422, bit_depth: 8, has_alpha: false },
            ),
            PixelFormat::Yuv422P10Le => Some(
                HeifPixelFormat { chroma: Chroma::Yuv422, bit_depth: 10, has_alpha: false },
            ),
            PixelFormat::Yuv422P12Le => Some(
                HeifPixelFormat { chroma: Chroma::Yuv422, bit_depth: 12, has_alpha: false },
            ),
            PixelFormat::Yuv422P16Le => Some(
                HeifPixelFormat { chroma: Chroma::Yuv422, bit_depth: 16, has_alpha: false },
            ),
            PixelFormat::Yuva422P => Some(
                HeifPixelFormat { chroma: Chroma::Yuv422, bit_depth: 8, has_alpha: true },
            ),
            PixelFormat::Yuva422P10Le => Some(
                HeifPixelFormat { chroma: Chroma::Yuv422, bit_depth: 10, has_alpha: true },
            ),
            PixelFormat::Yuva422P12Le => Some(
                HeifPixelFormat { chroma: Chroma::Yuv422, bit_depth: 12, has_alpha: true },
            ),
            PixelFormat::Yuva422P16Le => Some(
                HeifPixelFormat { chroma: Chroma::Yuv422, bit_depth: 16, has_alpha: true },
            ),
            PixelFormat::Yuv444P => Some(
                HeifPixelFormat { chroma: Chroma::Yuv444, bit_depth: 8, has_alpha: false },
            ),
            PixelFormat::Yuv444P10Le => Some(
                HeifPixelFormat { chroma: Chroma::Yuv444, bit_depth: 10, has_alpha: false },
            ),
            PixelFormat::Yuv444P12Le => Some(
                HeifPixelFormat { chroma: Chroma::Yuv444, bit_depth: 12, has_alpha: false },
            ),
            PixelFormat::Yuv444P16Le => Some(
                HeifPixelFormat { chroma: Chroma::Yuv444, bit_depth: 16, has_alpha: false },
            ),
            PixelFormat::Yuva444P => Some(
                HeifPixelFormat { chroma: Chroma::Yuv444, bit_depth: 8, has_alpha: true },
            ),
            PixelFormat::Yuva444P10Le => Some(
                HeifPixelFormat { chroma: Chroma::Yuv444, bit_depth: 10, has_alpha: true },
            ),
            PixelFormat::Yuva444P12Le => Some(
                HeifPixelFormat { chroma: Chroma::Yuv444, bit_depth: 12, has_alpha: true },
            ),
            PixelFormat::Yuva444P16Le => Some(
                HeifPixelFormat { chroma: Chroma::Yuv444, bit_depth: 16, has_alpha: true },
            ),
            PixelFormat::YuvJ420P => Some(
                HeifPixelFormat { chroma: Chroma::Yuv420, bit_depth: 8, has_alpha: false },
            ),
            PixelFormat::YuvJ422P => Some(
                HeifPixelFormat { chroma: Chroma::Yuv422, bit_depth: 8, has_alpha: false },
            ),
            PixelFormat::YuvJ444P => Some(
                HeifPixelFormat { chroma: Chroma::Yuv444, bit_depth: 8, has_alpha: false },
            ),
            _ => None,
        }
    }
}

/// A layout is that of its framework pixel format.
#[verifier::rlimit(50)]
pub proof fn law_core_format_round_trip(f: HeifPixelFormat)
    requires
        f.core_format() is Some,
    ensures
        HeifPixelFormat::of_core(f.core_format()->Some_0) == Some(f),
{
}

/// The full-range variant of a framework pixel format, where it has one.
pub open spec fn full_range_of(f: PixelFormat) -> PixelFormat {
    match f {
        PixelFormat::Yuv420P => PixelFormat::YuvJ420P,
        PixelFormat::Yuv422P => PixelFormat::YuvJ422P,
        PixelFormat::Yuv444P => PixelFormat::YuvJ444P,
        _ => f,
    }
}

/// The full-range variant of a framework pixel format, where it has one.
pub fn full_range_variant(f: PixelFormat) -> (r: PixelFormat)
    ensures
        r == full_range_of(f),
{
    match f {
        PixelFormat::Yuv420P => PixelFormat::YuvJ420P,
        PixelFormat::Yuv422P => PixelFormat::YuvJ422P,
        PixelFormat::Yuv444P => PixelFormat::YuvJ444P,
        _ => f,
    }
}

/// A framework frame: its planes, and its time when it has one.
#[derive(Debug, PartialEq, Eq)]
pub struct VideoFrame {
    /// Presentation time.
    pub pts: Option<i64>,
    /// The planes.
    pub planes: Vec<HeifPlane>,
}

/// Model of [`VideoFrame`].
#[verifier::ext_equal]
pub struct VideoModel {
    /// Presentation time.
    pub pts: Option<i64>,
    /// The planes.
    pub planes: Seq<PlaneModel>,
}

impl View for VideoFrame {
    type V = VideoModel;

    open spec fn view(&self) -> VideoModel {
        VideoModel { pts: self.pts, planes: self.planes.deep_view() }
    }
}

/// The models of a list of planes.
pub open spec fn plane_models(v: Seq<HeifPlane>) -> Seq<PlaneModel> {
    Seq::new(v.len(), |i: int| v[i]@)
}

/// The first planes of a list.
pub(crate) fn copy_planes(v: &[HeifPlane], n: usize) -> (r: Vec<HeifPlane>)
    requires
        n <= v@.len(),
    ensures
        r.deep_view() == plane_models(v@).take(n as int),
{
    let mut out: Vec<HeifPlane> = Vec::new();
    for i in 0..n
        invariant
            n <= v@.len(),
            out@.len() == i,
            forall|k: int| 0 <= k < i ==> (#[trigger] out@[k])@ == v@[k]@,
    {
        out.push(v[i].clone());
    }
    assert(out.deep_view() =~= plane_models(v@).take(n as int));
    out
}

impl FrameModel {
    /// Whether the frame is a framework frame with the given format: as it is,
    /// or its 4:4:4 form where its layout has no framework format.
    pub open spec fn emitted(self, v: VideoModel, pf: PixelFormat) -> bool {
        if self.format.core_format() is Some {
            self.format.core_format() == Some(pf) && v == (VideoModel { pts: None, planes: self.planes })
        } else {
            &&& v.pts is None
            &&& exists|f: FrameModel| #[trigger]
                f.promotes(self) && f.format.core_format() == Some(pf) && v.planes == f.planes
        }
    }

    /// Whether the frame can be emitted.
    pub open spec fn has_core(self) -> bool {
        self.format.core_format() is Some || (HeifPixelFormat {
            chroma: Chroma::Yuv444,
            ..self.format
        }).core_format() is Some
    }
}

impl HeifFrame {
    /// Convert into a framework `VideoFrame` plus its pixel format.
    ///
    /// Layouts without a framework equivalent (gray + alpha above
    /// 8 bits, 4:2:0 12-bit + alpha) are promoted to the matching
    /// 4:4:4 alpha layout with neutral chroma so no information is
    /// lost.
    pub fn to_core(&self) -> (r: Result<(VideoFrame, PixelFormat)>)
        requires
            self@.wf(),
        ensures
            match r {
                Ok(x) => self@.has_core() && self@.emitted(x.0@, x.1),
                Err(e) => !self@.has_core() && e.kind() == ErrorKind::Unsupported,
            },
    {
        if let Some(pf) = self.format.to_core() {
            let planes: Vec<HeifPlane> = copy_planes(self.planes.as_slice(), self.planes.len());
            proof {
                assert(plane_models(self.planes@).take(self.planes@.len() as int)
                    =~= self.planes.deep_view());
            }
            return Ok((VideoFrame { pts: None, planes }, pf));
        }
        let promoted: HeifFrame = self.promote_to_444()?;
        match promoted.format.to_core() {
            Some(pf) => {
                assert(promoted@.promotes(self@));
                Ok((VideoFrame { pts: None, planes: promoted.planes }, pf))
            },
            None => {
                let d: String = decimal(self.format.bit_depth as u64);
                Err(
                    HeifError::unsupported(
                        concat(&["no framework layout for ", d.as_str(), "-bit samples"]),
                    ),
                )
            },
        }
    }

    /// Build from a framework frame of known geometry / format.
    pub fn from_core(frame: &VideoFrame, width: u32, height: u32, pf: PixelFormat) -> (r: Result<Self>)
        ensures
            view_outcome(r) == frame_of_core(frame@, width, height, pf),
            r matches Ok(f) ==> f@.wf(),
    {
        let format: HeifPixelFormat = match HeifPixelFormat::from_core(pf) {
            Some(f) => f,
            None => {
                return Err(
                    HeifError::unsupported("framework pixel format is not planar YCbCr / gray"),
                );
            },
        };
        let n: usize = format.plane_count();
        if frame.planes.len() < n {
            let a: String = decimal(frame.planes.len() as u64);
            let b: String = decimal(n as u64);
            return Err(
                HeifError::invalid(
                    concat(
                        &[
                            "framework frame has ",
                            a.as_str(),
                            " planes, the format needs ",
                            b.as_str(),
                        ],
                    ),
                ),
            );
        }
        let planes: Vec<HeifPlane> = copy_planes(frame.planes.as_slice(), n);
        let f = HeifFrame { width, height, format, planes };
        proof {
            assert(plane_models(frame.planes@) =~= frame.planes.deep_view());
        }
        f.validate()?;
        Ok(f)
    }
}

/// The frame a framework frame of known geometry and format is.
pub open spec fn frame_of_core(v: VideoModel, width: u32, height: u32, pf: PixelFormat) -> Outcome<
    FrameModel,
> {
    match HeifPixelFormat::of_core(pf) {
        None => Err(ErrorKind::Unsupported),
        Some(format) => if v.planes.len() < format.planes() {
            Err(ErrorKind::Invalid)
        } else {
            let f = FrameModel { width, height, format, planes: v.planes.take(format.planes()) };
            match f.refusal() {
                Some(e) => Err(e),
                None => Ok(f),
            }
        },
    }
}

/// A frame whose layout the framework has comes back from it unchanged.
#[verifier::rlimit(50)]
pub proof fn law_core_frame_round_trip(f: FrameModel, v: VideoModel, pf: PixelFormat)
    requires
        f.wf(),
        f.format.core_format() is Some,
        f.emitted(v, pf),
    ensures
        frame_of_core(v, f.width, f.height, pf) == Ok::<FrameModel, ErrorKind>(f),
{
    law_core_format_round_trip(f.format);
    assert(v.planes.take(f.format.planes()) =~= f.planes);
}

} // verus!
