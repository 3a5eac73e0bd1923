//! Four-character codes of the boxes, handlers and colour types this crate
//! reads or writes.
use crate::boxes::FourCc;
use vstd::prelude::*;

verus! {

/// `ftyp`.
pub const FTYP: FourCc = [0x66, 0x74, 0x79, 0x70];

/// `styp`.
pub const STYP: FourCc = [0x73, 0x74, 0x79, 0x70];

/// `meta`.
pub const META: FourCc = [0x6d, 0x65, 0x74, 0x61];

/// `moov`.
pub const MOOV: FourCc = [0x6d, 0x6f, 0x6f, 0x76];

/// `mdat`.
pub const MDAT: FourCc = [0x6d, 0x64, 0x61, 0x74];

/// `idat`.
pub const IDAT: FourCc = [0x69, 0x64, 0x61, 0x74];

/// `hdlr`.
pub const HDLR: FourCc = [0x68, 0x64, 0x6c, 0x72];

/// `pitm`.
pub const PITM: FourCc = [0x70, 0x69, 0x74, 0x6d];

/// `iinf`.
pub const IINF: FourCc = [0x69, 0x69, 0x6e, 0x66];

/// `infe`.
pub const INFE: FourCc = [0x69, 0x6e, 0x66, 0x65];

/// `iloc`.
pub const ILOC: FourCc = [0x69, 0x6c, 0x6f, 0x63];

/// `iref`.
pub const IREF: FourCc = [0x69, 0x72, 0x65, 0x66];

/// `iprp`.
pub const IPRP: FourCc = [0x69, 0x70, 0x72, 0x70];

/// `ipco`.
pub const IPCO: FourCc = [0x69, 0x70, 0x63, 0x6f];

/// `ipma`.
pub const IPMA: FourCc = [0x69, 0x70, 0x6d, 0x61];

/// `grpl`.
pub const GRPL: FourCc = [0x67, 0x72, 0x70, 0x6c];

/// `dinf`.
pub const DINF: FourCc = [0x64, 0x69, 0x6e, 0x66];

/// `dref`.
pub const DREF: FourCc = [0x64, 0x72, 0x65, 0x66];

/// `ipro`.
pub const IPRO: FourCc = [0x69, 0x70, 0x72, 0x6f];

/// `uuid`.
pub const UUID: FourCc = [0x75, 0x75, 0x69, 0x64];

/// `trak`.
pub const TRAK: FourCc = [0x74, 0x72, 0x61, 0x6b];

/// `mdia`.
pub const MDIA: FourCc = [0x6d, 0x64, 0x69, 0x61];

/// `minf`.
pub const MINF: FourCc = [0x6d, 0x69, 0x6e, 0x66];

/// `stbl`.
pub const STBL: FourCc = [0x73, 0x74, 0x62, 0x6c];

/// `edts`.
pub const EDTS: FourCc = [0x65, 0x64, 0x74, 0x73];

/// `udta`.
pub const UDTA: FourCc = [0x75, 0x64, 0x74, 0x61];

/// `mvex`.
pub const MVEX: FourCc = [0x6d, 0x76, 0x65, 0x78];

/// `moof`.
pub const MOOF: FourCc = [0x6d, 0x6f, 0x6f, 0x66];

/// `traf`.
pub const TRAF: FourCc = [0x74, 0x72, 0x61, 0x66];

/// `tref`.
pub const TREF: FourCc = [0x74, 0x72, 0x65, 0x66];

/// `mvhd`.
pub const MVHD: FourCc = [0x6d, 0x76, 0x68, 0x64];

/// `tkhd`.
pub const TKHD: FourCc = [0x74, 0x6b, 0x68, 0x64];

/// `mdhd`.
pub const MDHD: FourCc = [0x6d, 0x64, 0x68, 0x64];

/// `stsd`.
pub const STSD: FourCc = [0x73, 0x74, 0x73, 0x64];

/// `stts`.
pub const STTS: FourCc = [0x73, 0x74, 0x74, 0x73];

/// `ctts`.
pub const CTTS: FourCc = [0x63, 0x74, 0x74, 0x73];

/// `stsc`.
pub const STSC: FourCc = [0x73, 0x74, 0x73, 0x63];

/// `stsz`.
pub const STSZ: FourCc = [0x73, 0x74, 0x73, 0x7a];

/// `stz2`.
pub const STZ2: FourCc = [0x73, 0x74, 0x7a, 0x32];

/// `stco`.
pub const STCO: FourCc = [0x73, 0x74, 0x63, 0x6f];

/// `co64`.
pub const CO64: FourCc = [0x63, 0x6f, 0x36, 0x34];

/// `stss`.
pub const STSS: FourCc = [0x73, 0x74, 0x73, 0x73];

/// `elst`.
pub const ELST: FourCc = [0x65, 0x6c, 0x73, 0x74];

/// `sbgp`.
pub const SBGP: FourCc = [0x73, 0x62, 0x67, 0x70];

/// `csgp`.
pub const CSGP: FourCc = [0x63, 0x73, 0x67, 0x70];

/// `sgpd`.
pub const SGPD: FourCc = [0x73, 0x67, 0x70, 0x64];

/// `prft`.
pub const PRFT: FourCc = [0x70, 0x72, 0x66, 0x74];

/// `ssix`.
pub const SSIX: FourCc = [0x73, 0x73, 0x69, 0x78];

/// `auxi`.
pub const AUXI: FourCc = [0x61, 0x75, 0x78, 0x69];

/// `ccst`.
pub const CCST: FourCc = [0x63, 0x63, 0x73, 0x74];

/// `imir`.
pub const IMIR: FourCc = [0x69, 0x6d, 0x69, 0x72];

/// `irot`.
pub const IROT: FourCc = [0x69, 0x72, 0x6f, 0x74];

/// `clap`.
pub const CLAP: FourCc = [0x63, 0x6c, 0x61, 0x70];

/// `iscl`.
pub const ISCL: FourCc = [0x69, 0x73, 0x63, 0x6c];

/// `ispe`.
pub const ISPE: FourCc = [0x69, 0x73, 0x70, 0x65];

/// `pixi`.
pub const PIXI: FourCc = [0x70, 0x69, 0x78, 0x69];

/// `colr`.
pub const COLR: FourCc = [0x63, 0x6f, 0x6c, 0x72];

/// `pasp`.
pub const PASP: FourCc = [0x70, 0x61, 0x73, 0x70];

/// `rloc`.
pub const RLOC: FourCc = [0x72, 0x6c, 0x6f, 0x63];

/// `lsel`.
pub const LSEL: FourCc = [0x6c, 0x73, 0x65, 0x6c];

/// `a1op`.
pub const A1OP: FourCc = [0x61, 0x31, 0x6f, 0x70];

/// `a1lx`.
pub const A1LX: FourCc = [0x61, 0x31, 0x6c, 0x78];

/// `rref`.
pub const RREF: FourCc = [0x72, 0x72, 0x65, 0x66];

/// `crtt`.
pub const CRTT: FourCc = [0x63, 0x72, 0x74, 0x74];

/// `mdft`.
pub const MDFT: FourCc = [0x6d, 0x64, 0x66, 0x74];

/// `udes`.
pub const UDES: FourCc = [0x75, 0x64, 0x65, 0x73];

/// `altt`.
pub const ALTT: FourCc = [0x61, 0x6c, 0x74, 0x74];

/// `tols`.
pub const TOLS: FourCc = [0x74, 0x6f, 0x6c, 0x73];

/// `oinf`.
pub const OINF: FourCc = [0x6f, 0x69, 0x6e, 0x66];

/// `clli`.
pub const CLLI: FourCc = [0x63, 0x6c, 0x6c, 0x69];

/// `mdcv`.
pub const MDCV: FourCc = [0x6d, 0x64, 0x63, 0x76];

/// `cclv`.
pub const CCLV: FourCc = [0x63, 0x63, 0x6c, 0x76];

/// `amve`.
pub const AMVE: FourCc = [0x61, 0x6d, 0x76, 0x65];

/// `nclx`.
pub const NCLX: FourCc = [0x6e, 0x63, 0x6c, 0x78];

/// `prof`.
pub const PROF: FourCc = [0x70, 0x72, 0x6f, 0x66];

/// `pict`.
pub const PICT: FourCc = [0x70, 0x69, 0x63, 0x74];

/// `vide`.
pub const VIDE: FourCc = [0x76, 0x69, 0x64, 0x65];

/// `auxv`.
pub const AUXV: FourCc = [0x61, 0x75, 0x78, 0x76];

/// `bxml`.
pub const BXML: FourCc = [0x62, 0x78, 0x6d, 0x6c];

/// `hvc1`.
pub const HVC1: FourCc = [0x68, 0x76, 0x63, 0x31];

/// `hev1`.
pub const HEV1: FourCc = [0x68, 0x65, 0x76, 0x31];

/// `hvc2`.
pub const HVC2: FourCc = [0x68, 0x76, 0x63, 0x32];

/// `hev2`.
pub const HEV2: FourCc = [0x68, 0x65, 0x76, 0x32];

/// `av01`.
pub const AV01: FourCc = [0x61, 0x76, 0x30, 0x31];

/// `avc1`.
pub const AVC1: FourCc = [0x61, 0x76, 0x63, 0x31];

/// `avc3`.
pub const AVC3: FourCc = [0x61, 0x76, 0x63, 0x33];

/// `auxl`.
pub const AUXL: FourCc = [0x61, 0x75, 0x78, 0x6c];

/// `mime`.
pub const MIME: FourCc = [0x6d, 0x69, 0x6d, 0x65];

/// `url `.
pub const URL: FourCc = [0x75, 0x72, 0x6c, 0x20];

/// `urn `.
pub const URN: FourCc = [0x75, 0x72, 0x6e, 0x20];

/// `hvcC`.
pub const HVCC: FourCc = [0x68, 0x76, 0x63, 0x43];

/// `av1C`.
pub const AV1C: FourCc = [0x61, 0x76, 0x31, 0x43];

/// `avcC`.
pub const AVCC: FourCc = [0x61, 0x76, 0x63, 0x43];

/// `lhvC`.
pub const LHVC: FourCc = [0x6c, 0x68, 0x76, 0x43];

/// `auxC`.
pub const AUXC: FourCc = [0x61, 0x75, 0x78, 0x43];

/// `rICC`.
pub const RICC: FourCc = [0x72, 0x49, 0x43, 0x43];

/// `xml `.
pub const XML: FourCc = [0x78, 0x6d, 0x6c, 0x20];

} // verus!
