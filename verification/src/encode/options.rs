//! The settings of the `"heif"` framework encoder.
use crate::encode::{text_of, EncodeOptions, StillCodec};
use crate::error::{ErrorKind, HeifError, Result};
use crate::image::core_bridge::PixelFormat;
use crate::props::{Colr, ColrModel};
use crate::text::same_text;
use vstd::prelude::*;

verus! {

/// Accepted framework pixel formats of the `"heif"` encoder: the planar
/// YCbCr / grey layouts plus the packed RGB / RGBA / grey+alpha ones converted
/// by [`crate::encode::packed_to_planar`].
pub const ENCODER_PIXEL_FORMATS: [PixelFormat; 20] = [
    PixelFormat::Rgb24,
    PixelFormat::Rgba,
    PixelFormat::Bgr24,
    PixelFormat::Bgra,
    PixelFormat::Rgb48Le,
    PixelFormat::Rgba64Le,
    PixelFormat::Gray8,
    PixelFormat::Gray16Le,
    PixelFormat::Ya8,
    PixelFormat::Ya16Le,
    PixelFormat::Yuv420P,
    PixelFormat::YuvJ420P,
    PixelFormat::Yuv422P,
    PixelFormat::YuvJ422P,
    PixelFormat::Yuv444P,
    PixelFormat::YuvJ444P,
    PixelFormat::Yuva420P,
    PixelFormat::Yuva444P,
    PixelFormat::Yuv420P10Le,
    PixelFormat::Yuv444P10Le,
];

/// Typed options of the `"heif"` framework encoder; the effective defaults of
/// the enumerated ones are `hevc`, `intra` and `full`.
#[derive(Debug)]
pub struct HeifEncoderOptions {
    /// `codec`: `hevc` (alias `h265`) or `av1`.
    pub codec: String,
    /// `mode` (HEVC): `intra` (CABAC at `qp`) or `pcm` (lossless).
    pub mode: String,
    /// `qp` (HEVC intra), 0..=51.
    pub qp: u32,
    /// `grid`: tile size for a `grid` primary (0 = none).
    pub grid: u32,
    /// `thumbnail`: largest thumbnail dimension (0 = none).
    pub thumbnail: u32,
    /// `range`: `full` or `limited` sample range of the written `nclx`.
    pub range: String,
    /// `quality` (AV1, `mode=intra`): 0..=100, 100 = lossless.
    pub quality: u32,
    /// `speed` (AV1): `fast` / `balanced` / `thorough`.
    pub speed: String,
    /// `rd` (HEVC intra): mode-decision effort 0..=2 (255 = the
    /// encoder's still default).
    pub rd: u32,
    /// `tiles` (HEVC): `CxR` tile layout (empty = none).
    pub tiles: String,
}

impl Default for HeifEncoderOptions {
    fn default() -> (r: Self)
        ensures
            r.codec@ == "hevc"@,
            r.mode@ == "intra"@,
            r.qp == 26,
            r.grid == 0,
            r.thumbnail == 0,
            r.range@ == "full"@,
            r.quality == 60,
            r.speed@ == "fast"@,
            r.rd == 255,
            r.tiles@ == ""@,
    {
        HeifEncoderOptions {
            codec: text_of("hevc"),
            mode: text_of("intra"),
            qp: 26,
            grid: 0,
            thumbnail: 0,
            range: text_of("full"),
            quality: 60,
            speed: text_of("fast"),
            rd: 255,
            tiles: text_of(""),
        }
    }
}

/// The codec a text names.
pub open spec fn named_codec(t: Seq<char>) -> Option<StillCodec> {
    if t == "hevc"@ || t == "h265"@ {
        Some(StillCodec::Hevc)
    } else if t == "av1"@ {
        Some(StillCodec::Av1)
    } else {
        None
    }
}

/// A number that is set when it is not zero.
pub open spec fn nonzero(n: u32) -> Option<u32> {
    if n > 0 {
        Some(n)
    } else {
        None
    }
}

/// The text of a setting that may be absent.
pub open spec fn optional_text(t: Option<String>) -> Option<Seq<char>> {
    match t {
        Some(s) => Some(s@),
        None => None,
    }
}

fn set_if(n: u32) -> (r: Option<u32>)
    ensures
        r == nonzero(n),
{
    if n > 0 {
        Some(n)
    } else {
        None
    }
}

impl HeifEncoderOptions {
    /// The `EncodeOptions` these settings describe. AV1: `mode=pcm` is
    /// lossless, `mode=intra` codes at `quality`.
    pub fn to_encode_options(&self) -> (r: Result<EncodeOptions>)
        ensures
            match r {
                Err(e) => named_codec(self.codec@) is None && e.kind() == ErrorKind::Invalid,
                Ok(o) => {
                    &&& named_codec(self.codec@) == Some(o.codec)
                    &&& o.hevc_mode@ == self.mode@
                    &&& o.qp == (if self.qp < 51 {
                        self.qp
                    } else {
                        51
                    })
                    &&& o.grid_tile == nonzero(self.grid)
                    &&& o.thumbnail_max_dim == nonzero(self.thumbnail)
                    &&& o.colr@ == (ColrModel::Nclx {
                        primaries: 1,
                        transfer: 13,
                        matrix: 6,
                        full_range: self.range@ != "limited"@,
                    })
                    &&& o.icc_profile is None
                    &&& o.exif is None
                    &&& o.xmp is None
                    &&& o.transforms@.len() == 0
                    &&& o.av1_quality == (if self.mode@ == "pcm"@ {
                        None
                    } else if self.quality < 100 {
                        Some(self.quality as u8)
                    } else {
                        Some(100u8)
                    })
                    &&& o.av1_speed@ == self.speed@
                    &&& o.hevc_rd == (if self.rd <= 2 {
                        Some(self.rd)
                    } else {
                        None
                    })
                    &&& optional_text(o.hevc_tiles) == (if self.tiles@.len() > 0 {
                        Some(self.tiles@)
                    } else {
                        None
                    })
                    &&& o.gain_map is None
                },
            },
    {
        let codec: StillCodec = if same_text(self.codec.as_str(), "hevc") || same_text(
            self.codec.as_str(),
            "h265",
        ) {
            StillCodec::Hevc
        } else if same_text(self.codec.as_str(), "av1") {
            StillCodec::Av1
        } else {
            return Err(HeifError::invalid("heif: unknown codec option"));
        };
        let qp: u8 = if self.qp < 51 {
            self.qp as u8
        } else {
            51
        };
        let av1_quality: Option<u8> = if same_text(self.mode.as_str(), "pcm") {
            None
        } else if self.quality < 100 {
            Some(self.quality as u8)
        } else {
            Some(100)
        };
        let hevc_rd: Option<u32> = if self.rd <= 2 {
            Some(self.rd)
        } else {
            None
        };
        let blank: bool = same_text(self.tiles.as_str(), "");
        proof {
            reveal_strlit("");
            assert(self.tiles@.len() == 0 ==> self.tiles@ =~= ""@);
        }
        let hevc_tiles: Option<String> = if blank {
            None
        } else {
            Some(text_of(self.tiles.as_str()))
        };
        let full_range: bool = !same_text(self.range.as_str(), "limited");
        Ok(
            EncodeOptions {
                codec,
                hevc_mode: text_of(self.mode.as_str()),
                qp,
                grid_tile: set_if(self.grid),
                thumbnail_max_dim: set_if(self.thumbnail),
                colr: Colr::Nclx { primaries: 1, transfer: 13, matrix: 6, full_range },
                icc_profile: None,
                exif: None,
                xmp: None,
                transforms: Vec::new(),
                av1_quality,
                av1_speed: text_of(self.speed.as_str()),
                hevc_rd,
                hevc_tiles,
                gain_map: None,
            },
        )
    }
}

} // verus!
