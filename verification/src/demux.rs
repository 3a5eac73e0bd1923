//! The HEIF container as a source of streams.
//!
//! A `.heic` / `.heif` / `.avif` file opens with:
//!
//! * **stream 0 — the still image** (when the file-level `meta` box has
//!   a `pict` handler and a primary item): codec id `"heif"`, one
//!   keyframe packet carrying the whole file. The stream's parameters announce
//!   the predicted output geometry and pixel format ([`predict`]) so pipelines
//!   can allocate before decoding.
//! * **one stream per visual track** (`pict` / `vide` / `auxv`
//!   handlers of the `moov` box, image sequences): codec id resolved
//!   from the sample-entry type (`hvc1` → `"h265"`, `av01` → `"av1"`,
//!   …), `extradata` = the `hvcC` / `av1C` record, packets = the samples in
//!   decode order with `pts` / `dts` / `duration` in the media time base and
//!   the `stss` sync flags; seeking lands on sync samples ([`cursor`]).
use vstd::prelude::*;

pub mod cursor;
pub mod forecast;
pub mod laws;
pub mod packets;
pub mod predict;
pub mod streams;

pub use predict::{core_pixel_format, predict_output};

verus! {

/// Container name the demuxer is registered under.
pub const CONTAINER_NAME: &'static str = "heif";

/// Codec id of the still-image decoder.
pub const CODEC_ID: &'static str = "heif";

/// Maximum file size the demuxer reads into memory.
pub const MAX_FILE_BYTES: u64 = 0x1_0000_0000;

} // verus!
