//! HEIF / HEIC / MIAF image containers (ISO/IEC 23008-12,
//! ISO/IEC 23000-22) for the oxideav framework.
//!
//! This crate owns the *container*: the ISOBMFF box tree, the `meta`
//! item model (items, locations, references, properties, entity
//! groups), derived images (`grid` / `iovl` / `iden`), auxiliaries
//! (alpha / depth), thumbnails, Exif / XMP / ICC metadata and the
//! `moov` image-sequence tracks. It never decodes an HEVC or AV1
//! bitstream itself — coded items are handed to `oxideav-h265`, `oxideav-av1`
//! or `oxideav-h264`, and what is made of their answers is decided here.
//!
//! # Layers
//!
//! * [`boxes`] — bounds-checked ISOBMFF box reader / writer helpers.
//! * [`ftyp`] — brands and the container probe.
//! * [`meta`] — the `meta` box tree model.
//! * [`file`](mod@file) — [`HeifFile`]: whole-file parse + item payload
//!   resolution across all three `iloc` construction methods.
//! * [`props`] — the typed item-property surface (`ispe`, `pixi`,
//!   `colr`, `pasp`, `clap`, `irot`, `imir`, `iscl`, `auxC`, `hvcC`,
//!   `av1C`, `clli`, `mdcv`, `cclv`, `amve`, `rloc`, `lsel`, `a1op`,
//!   `a1lx`, `rref`, `crtt`, `mdft`, `udes`, `altt`) with the §6.5.1
//!   descriptive / transformative / essential semantics.
//! * [`hvcc`] / [`av1c`] / [`avcc`] / [`lhvc`] — the decoder configuration
//!   records.
//! * [`derived`] — `grid` / `iovl` / `iden` descriptors and the bounded
//!   derivation graph ([`derived::build_graph`]).
//! * [`double`] — arithmetic in double precision, for sizes and colours.
//! * [`image`] / [`compose`] / [`rgb`] / [`gainmap`] — planar pictures, the
//!   composition of derived images, and gain-map metadata.
//! * [`sequence`] — `moov` image-sequence tracks.
//! * [`miaf`] — MIAF constraints as typed checks ([`miaf::check`]).
//! * [`decode`] / [`encode`] — items in, pictures out, and the other way round.
//! * [`demux`] / [`mux`] / [`registry`] — the container as a source and a sink
//!   of streams.
use crate::error::view_outcome;
use vstd::prelude::*;

pub mod av1c;
pub mod avcc;
pub mod boxes;
pub mod bytes;
pub mod compose;
pub mod decode;
pub mod demux;
pub mod derived;
pub mod double;
pub mod encode;
pub mod error;
pub mod file;
pub mod ftyp;
pub mod gainmap;
pub mod hvcc;
pub mod image;
pub mod lhvc;
pub mod meta;
pub mod miaf;
pub mod mux;
pub mod props;
pub mod registry;
pub mod rgb;
pub mod sequence;
pub mod tags;
pub mod text;

pub use av1c::Av1Config;
pub use derived::{
    build_graph, build_primary_graph, GridDescriptor, ImageKind, ImageNode, OverlayDescriptor,
};
pub use error::{HeifError, Result};
pub use file::HeifFile;
pub use ftyp::{BrandClass, FileType};
pub use hvcc::HevcConfig;
pub use meta::{
    EntityGroup, Extent, ItemInfo, ItemLocation, ItemReference, Meta, PropertyAssociation,
    RawProperty,
};
pub use miaf::{MiafProfile, MiafReport, MiafViolation};
pub use props::{
    AuxC, AuxKind, Clap, Colr, CropRect, Imir, Irot, Ispe, ItemProperties, Pasp, Pixi, Property,
    PropertyEntry,
};

verus! {

/// Parse a HEIF file held in memory. Direct entry point of the
/// standalone container surface; see [`HeifFile`] for what it exposes.
pub fn parse(bytes: &[u8]) -> (r: Result<HeifFile<'_>>)
    ensures
        view_outcome(r) == file::file_of(bytes@),
        r matches Ok(f) ==> f@.wf(),
{
    HeifFile::parse(bytes)
}

} // verus!
