//! What the container is registered with.
//!
//! # Probe priority
//!
//! The MP4 / MOV demuxers also score an `ftyp` box at 100. HEIF-family
//! brands (`heic`, `heix`, `mif1`, `msf1`, `miaf`, `avif`, …) make
//! [`crate::ftyp::probe_score`] return 100 too, so the tie is broken by
//! resolution priority: this container registers at [`PROBE_PRIORITY`],
//! below the default of 100, and therefore wins for HEIF brands while files
//! with only generic (`isom`, `qt  `, `mp42`) brands score 0 here and
//! stay with MP4 / MOV.
use vstd::prelude::*;

verus! {

/// Resolution priority of the container probe (lower wins ties).
pub const PROBE_PRIORITY: i32 = 50;

/// File extensions claimed for the container (MIAF §10.1 Table 5 plus
/// the AVIF family, which this container walks too).
pub const EXTENSIONS: [&'static str; 7] = [
    "heic",
    "heif",
    "heics",
    "heifs",
    "hif",
    "avif",
    "avifs",
];

} // verus!
