//! Item reference types (HEIF §6).
use crate::boxes::FourCc;
use vstd::prelude::*;

verus! {

/// Derived image → input images.
pub const DIMG: FourCc = [0x64, 0x69, 0x6d, 0x67];

/// Thumbnail → master.
pub const THMB: FourCc = [0x74, 0x68, 0x6d, 0x62];

/// Auxiliary → master.
pub const AUXL: FourCc = [0x61, 0x75, 0x78, 0x6c];

/// Metadata item → described image.
pub const CDSC: FourCc = [0x63, 0x64, 0x73, 0x63];

/// Pre-derived coded image → source images.
pub const BASE: FourCc = [0x62, 0x61, 0x73, 0x65];

/// Master → auxiliary: master is pre-multiplied by alpha.
pub const PREM: FourCc = [0x70, 0x72, 0x65, 0x6d];

/// Tile item → base image (with `rloc`).
pub const TBAS: FourCc = [0x74, 0x62, 0x61, 0x73];

/// Dependent slice tile → independent slice tile.
pub const DPND: FourCc = [0x64, 0x70, 0x6e, 0x64];

/// Predictively coded item → reference items.
pub const PRED: FourCc = [0x70, 0x72, 0x65, 0x64];

/// Scalable item → external base layer.
pub const EXBL: FourCc = [0x65, 0x78, 0x62, 0x6c];

/// Item whose data is addressed by construction method 2.
pub const ILOC: FourCc = [0x69, 0x6c, 0x6f, 0x63];

/// Region item → image item.
pub const CDSC_REGION: FourCc = [0x63, 0x64, 0x73, 0x63];

/// Mask item → region.
pub const MASK: FourCc = [0x6d, 0x61, 0x73, 0x6b];

/// Text item → image.
pub const TEXT: FourCc = [0x74, 0x65, 0x78, 0x74];

/// Text item → font item.
pub const FONT: FourCc = [0x66, 0x6f, 0x6e, 0x74];

/// Event item → image.
pub const EVNT: FourCc = [0x65, 0x76, 0x6e, 0x74];

} // verus!
