//! File type box (`ftyp`, ISO/IEC 14496-12 §4.3) and the HEIF / MIAF /
//! AVIF brand vocabulary (ISO/IEC 23008-12 §10 + Annex B.4, ISO/IEC
//! 23000-22 §10 + Annex A, AV1-ISOBMFF / AVIF brands).
//!
//! `styp` (segment type, §8.16.2) has the same body layout and is
//! accepted by the same parser for fragmented image sequences.
use crate::boxes::write::{box_bytes, boxed};
use crate::boxes::{fourcc_at, fourcc_eq, fourcc_str, FourCc, Reader};
use crate::bytes::{copy_vec, be32, enc32, get32, put, put32};
use crate::error::{outcome, ErrorKind, HeifError, Result};
use crate::tags;
use crate::text::{concat, decimal};
use vstd::prelude::*;

verus! {

// structural brands (HEIF §10)
/// HEIF image / image collection structural brand (§10.2.2).
pub const BRAND_MIF1: FourCc = [0x6d, 0x69, 0x66, 0x31];

/// HEIF structural brand requiring `mif1` + `altr` / `prem` / CICP alpha (§10.2.3).
pub const BRAND_MIF2: FourCc = [0x6d, 0x69, 0x66, 0x32];

/// HEIF image sequence structural brand (§10.3.1).
pub const BRAND_MSF1: FourCc = [0x6d, 0x73, 0x66, 0x31];

/// Predictively coded image items brand (§10.2.4).
pub const BRAND_PRED: FourCc = [0x70, 0x72, 0x65, 0x64];

/// Single intra-coded picture brand (§10.2.5).
pub const BRAND_1PIC: FourCc = [0x31, 0x70, 0x69, 0x63];

// HEVC brands (HEIF Annex B.4)
/// HEVC Main / Main Still Picture image item brand (B.4.1).
pub const BRAND_HEIC: FourCc = [0x68, 0x65, 0x69, 0x63];

/// HEVC Main 10 / RExt image item brand (B.4.1).
pub const BRAND_HEIX: FourCc = [0x68, 0x65, 0x69, 0x78];

/// HEVC Main image sequence brand (B.4.2).
pub const BRAND_HEVC: FourCc = [0x68, 0x65, 0x76, 0x63];

/// HEVC Main 10 / RExt image sequence brand (B.4.2).
pub const BRAND_HEVX: FourCc = [0x68, 0x65, 0x76, 0x78];

/// L-HEVC image item brands (B.4.3).
pub const BRAND_HEIM: FourCc = [0x68, 0x65, 0x69, 0x6d];

/// L-HEVC image item brand, scalable (B.4.3).
pub const BRAND_HEIS: FourCc = [0x68, 0x65, 0x69, 0x73];

/// L-HEVC image sequence brands (B.4.4).
pub const BRAND_HEVM: FourCc = [0x68, 0x65, 0x76, 0x6d];

/// L-HEVC image sequence brand, scalable (B.4.4).
pub const BRAND_HEVS: FourCc = [0x68, 0x65, 0x76, 0x73];

// MIAF brands (23000-22)
/// MIAF conformance brand (§10.1).
pub const BRAND_MIAF: FourCc = [0x6d, 0x69, 0x61, 0x66];

/// MIAF HEVC Basic profile (Annex A.3).
pub const BRAND_MIHB: FourCc = [0x4d, 0x69, 0x48, 0x42];

/// MIAF HEVC Advanced profile (Annex A.4).
pub const BRAND_MIHA: FourCc = [0x4d, 0x69, 0x48, 0x41];

/// MIAF HEVC Extended profile (Annex A.5).
pub const BRAND_MIHE: FourCc = [0x4d, 0x69, 0x48, 0x45];

/// MIAF AVC Basic profile (Annex A.6).
pub const BRAND_MIAB: FourCc = [0x4d, 0x69, 0x41, 0x42];

/// MIAF progressive application brand (§10.2).
pub const BRAND_MIPR: FourCc = [0x4d, 0x69, 0x50, 0x72];

/// MIAF animation application brand (§10.3).
pub const BRAND_MIAN: FourCc = [0x4d, 0x69, 0x41, 0x6e];

/// MIAF burst capture application brand (§10.4).
pub const BRAND_MIBU: FourCc = [0x4d, 0x69, 0x42, 0x75];

/// MIAF common media fragmented brand (§10.6).
pub const BRAND_MICM: FourCc = [0x4d, 0x69, 0x43, 0x6d];

// AV1 family (AVIF)
/// AVIF image brand.
pub const BRAND_AVIF: FourCc = [0x61, 0x76, 0x69, 0x66];

/// AVIF image sequence brand.
pub const BRAND_AVIS: FourCc = [0x61, 0x76, 0x69, 0x73];

/// AVIF intra-only sequence brand.
pub const BRAND_AVIO: FourCc = [0x61, 0x76, 0x69, 0x6f];

/// AVIF MIAF AV1 Basic profile.
pub const BRAND_MA1B: FourCc = [0x4d, 0x41, 0x31, 0x42];

/// AVIF MIAF AV1 Advanced profile.
pub const BRAND_MA1A: FourCc = [0x4d, 0x41, 0x31, 0x41];

// ISOBMFF brands that co-occur
/// ISOBMFF `iso8` (required alongside `msf1`).
pub const BRAND_ISO8: FourCc = [0x69, 0x73, 0x6f, 0x38];

/// JPEG image item brand (HEIF Annex H).
pub const BRAND_JPEG: FourCc = [0x6a, 0x70, 0x65, 0x67];

/// JPEG image sequence brand (HEIF Annex H).
pub const BRAND_JPGS: FourCc = [0x6a, 0x70, 0x67, 0x73];

/// AVC image item brand (HEIF Annex E).
pub const BRAND_AVCI: FourCc = [0x61, 0x76, 0x63, 0x69];

/// AVC image sequence brand (HEIF Annex E).
pub const BRAND_AVCS: FourCc = [0x61, 0x76, 0x63, 0x73];

/// Brands that identify a file as one this crate owns (HEIF structural,
/// HEVC-specific, MIAF, AV1/AVIF). Presence of any of them as the major
/// brand or among the compatible brands makes the container probe fire.
pub const HEIF_FAMILY_BRANDS: [FourCc; 27] = [
    BRAND_MIF1, BRAND_MIF2, BRAND_MSF1, BRAND_HEIC, BRAND_HEIX, BRAND_HEVC, BRAND_HEVX, BRAND_HEIM,
    BRAND_HEIS, BRAND_HEVM, BRAND_HEVS, BRAND_MIAF, BRAND_MIHB, BRAND_MIHA, BRAND_MIHE, BRAND_MIAB,
    BRAND_AVIF, BRAND_AVIS, BRAND_AVIO, BRAND_MA1B, BRAND_MA1A, BRAND_JPEG, BRAND_JPGS, BRAND_AVCI,
    BRAND_AVCS, BRAND_1PIC, BRAND_PRED,
];

/// Parsed `ftyp` / `styp` box.
#[derive(Debug, PartialEq, Eq)]
pub struct FileType {
    /// The box type that carried the brands (`ftyp` or `styp`).
    pub box_type: FourCc,
    /// `major_brand`.
    pub major_brand: FourCc,
    /// `minor_version` (HEIF §10.1: written as 0, ignored by readers).
    pub minor_version: u32,
    /// `compatible_brands[]`, in file order.
    pub compatible_brands: Vec<FourCc>,
}

/// Model of a [`FileType`].
#[verifier::ext_equal]
pub struct FileTypeModel {
    /// The box type that carried the brands.
    pub box_type: FourCc,
    /// `major_brand`.
    pub major_brand: FourCc,
    /// `minor_version`.
    pub minor_version: u32,
    /// `compatible_brands[]`, in file order.
    pub compatible_brands: Seq<FourCc>,
}

impl View for FileType {
    type V = FileTypeModel;

    open spec fn view(&self) -> FileTypeModel {
        FileTypeModel {
            box_type: self.box_type,
            major_brand: self.major_brand,
            minor_version: self.minor_version,
            compatible_brands: self.compatible_brands@,
        }
    }
}

impl DeepView for FileType {
    type V = FileTypeModel;

    open spec fn deep_view(&self) -> FileTypeModel {
        self@
    }
}

impl Clone for FileType {
    fn clone(&self) -> (r: Self)
        ensures
            r@ == self@,
    {
        FileType {
            box_type: self.box_type,
            major_brand: self.major_brand,
            minor_version: self.minor_version,
            compatible_brands: copy_vec(&self.compatible_brands),
        }
    }
}

/// Whether the brand is one of [`HEIF_FAMILY_BRANDS`].
pub open spec fn is_family_brand(b: FourCc) -> bool {
    HEIF_FAMILY_BRANDS@.contains(b)
}

/// The file type an `ftyp` / `styp` payload declares: a major brand, a minor
/// version, and compatible brands that fill the payload.
pub open spec fn file_type_of(box_type: FourCc, p: Seq<u8>) -> core::result::Result<
    FileTypeModel,
    ErrorKind,
> {
    if p.len() < 8 || p.len() % 4 != 0 {
        Err(ErrorKind::Invalid)
    } else {
        Ok(
            FileTypeModel {
                box_type,
                major_brand: fourcc_at(p, 0),
                minor_version: be32(p, 4),
                compatible_brands: Seq::new(
                    (p.len() / 4 - 2) as nat,
                    |i: int| fourcc_at(p, 8 + 4 * i),
                ),
            },
        )
    }
}

/// The brands one after the other.
pub open spec fn brand_bytes(brands: Seq<FourCc>) -> Seq<u8>
    decreases brands.len(),
{
    if brands.len() == 0 {
        Seq::empty()
    } else {
        brand_bytes(brands.drop_last()) + brands.last()@
    }
}

/// Each brand at its first occurrence.
pub open spec fn distinct(brands: Seq<FourCc>) -> Seq<FourCc>
    decreases brands.len(),
{
    if brands.len() == 0 {
        Seq::empty()
    } else {
        let before = distinct(brands.drop_last());
        if before.contains(brands.last()) {
            before
        } else {
            before.push(brands.last())
        }
    }
}

impl FileTypeModel {
    /// The major brand, then the compatible brands.
    pub open spec fn brands(self) -> Seq<FourCc> {
        seq![self.major_brand] + self.compatible_brands
    }

    /// Whether `brand` is the major brand or listed as compatible.
    pub open spec fn has(self, brand: FourCc) -> bool {
        self.major_brand == brand || self.compatible_brands.contains(brand)
    }

    /// Whether any HEIF-family brand is declared.
    pub open spec fn in_family(self) -> bool {
        exists|b: FourCc| self.has(b) && #[trigger] is_family_brand(b)
    }

    /// The payload that declares these brands.
    pub open spec fn body(self) -> Seq<u8> {
        self.major_brand@ + enc32(self.minor_version) + brand_bytes(self.compatible_brands)
    }

    /// What the declared brands say about the file layout.
    pub open spec fn class(self) -> BrandClass {
        BrandClass {
            image_collection: self.has(BRAND_MIF1) || self.has(BRAND_MIF2) || self.has(BRAND_HEIC)
                || self.has(BRAND_HEIX) || self.has(BRAND_HEIM) || self.has(BRAND_HEIS) || self.has(
                BRAND_AVIF,
            ) || self.has(BRAND_JPEG) || self.has(BRAND_AVCI) || self.has(BRAND_MIAF),
            image_sequence: self.has(BRAND_MSF1) || self.has(BRAND_HEVC) || self.has(BRAND_HEVX)
                || self.has(BRAND_HEVM) || self.has(BRAND_HEVS) || self.has(BRAND_AVIS) || self.has(
                BRAND_AVIO,
            ) || self.has(BRAND_JPGS) || self.has(BRAND_AVCS),
            miaf: self.has(BRAND_MIAF) || self.has(BRAND_MIHB) || self.has(BRAND_MIHA) || self.has(
                BRAND_MIHE,
            ) || self.has(BRAND_MIAB) || self.has(BRAND_MA1B) || self.has(BRAND_MA1A),
            hevc: self.has(BRAND_HEIC) || self.has(BRAND_HEIX) || self.has(BRAND_HEVC) || self.has(
                BRAND_HEVX,
            ) || self.has(BRAND_HEIM) || self.has(BRAND_HEIS) || self.has(BRAND_HEVM) || self.has(
                BRAND_HEVS,
            ) || self.has(BRAND_MIHB) || self.has(BRAND_MIHA) || self.has(BRAND_MIHE),
            av1: self.has(BRAND_AVIF) || self.has(BRAND_AVIS) || self.has(BRAND_AVIO) || self.has(
                BRAND_MA1B,
            ) || self.has(BRAND_MA1A),
            predictive_items: self.has(BRAND_PRED),
        }
    }
}

/// Whether `b` is among `v`.
pub fn contains_code(v: &[FourCc], b: &FourCc) -> (r: bool)
    ensures
        r == v@.contains(*b),
{
    for i in 0..v.len()
        invariant
            forall|j: int| 0 <= j < i ==> v@[j] != *b,
    {
        if fourcc_eq(&v[i], b) {
            return true;
        }
    }
    false
}

fn family_brand(b: &FourCc) -> (r: bool)
    ensures
        r == is_family_brand(*b),
{
    let all: [FourCc; 27] = HEIF_FAMILY_BRANDS;
    contains_code(all.as_slice(), b)
}

impl FileType {
    /// Parse the payload of an `ftyp` / `styp` box.
    pub fn parse(box_type: FourCc, payload: &[u8]) -> (r: Result<Self>)
        ensures
            outcome(r) == file_type_of(box_type, payload@),
    {
        let mut r: Reader = Reader::new(payload);
        let major_brand: FourCc = r.fourcc("ftyp major_brand")?;
        let minor_version: u32 = r.u32("ftyp minor_version")?;
        let mut compatible_brands: Vec<FourCc> = Vec::new();
        while r.remaining() >= 4
            invariant
                r.wf(),
                r.data() == payload@,
                8 <= r.at() <= payload@.len(),
                r.at() == 8 + 4 * compatible_brands@.len(),
                forall|i: int|
                    0 <= i < compatible_brands@.len() ==> compatible_brands@[i] == fourcc_at(
                        payload@,
                        8 + 4 * i,
                    ),
            decreases payload@.len() - r.at(),
        {
            let b: FourCc = r.fourcc("ftyp compatible_brand")?;
            compatible_brands.push(b);
        }
        if r.remaining() != 0 {
            let t: String = fourcc_str(&box_type);
            let n: String = decimal(r.remaining() as u64);
            return Err(
                HeifError::invalid(
                    concat(
                        &[
                            t.as_str(),
                            " body has ",
                            n.as_str(),
                            " trailing bytes (brands are 4-byte aligned)",
                        ],
                    ),
                ),
            );
        }
        let ft: FileType = Self { box_type, major_brand, minor_version, compatible_brands };
        proof {
            assert(ft.compatible_brands@ =~= file_type_of(
                box_type,
                payload@,
            )->Ok_0.compatible_brands);
        }
        Ok(ft)
    }

    /// `true` when `brand` is the major brand or listed as compatible.
    pub fn has_brand(&self, brand: &FourCc) -> (r: bool)
        ensures
            r == self.deep_view().has(*brand),
    {
        fourcc_eq(&self.major_brand, brand) || contains_code(
            self.compatible_brands.as_slice(),
            brand,
        )
    }

    /// Every brand (major first, then compatible, de-duplicated).
    pub fn all_brands(&self) -> (v: Vec<FourCc>)
        ensures
            v@ == distinct(self.deep_view().brands()),
    {
        let ghost all = self.deep_view().brands();
        let mut v: Vec<FourCc> = Vec::new();
        v.push(self.major_brand);
        proof {
            assert(all.take(1).drop_last() =~= Seq::empty());
            reveal_with_fuel(distinct, 2);
        }
        for i in 0..self.compatible_brands.len()
            invariant
                all == self.deep_view().brands(),
                v@ == distinct(all.take(i + 1)),
        {
            let b: FourCc = self.compatible_brands[i];
            proof {
                assert(all.take(i + 2).drop_last() =~= all.take(i + 1));
                assert(all.take(i + 2).last() == b);
            }
            if !contains_code(v.as_slice(), &b) {
                v.push(b);
            }
        }
        proof {
            assert(all.take(self.compatible_brands@.len() as int + 1) =~= all);
        }
        v
    }

    /// `true` when any HEIF-family brand is declared.
    pub fn is_heif_family(&self) -> (r: bool)
        ensures
            r == self.deep_view().in_family(),
    {
        if family_brand(&self.major_brand) {
            return true;
        }
        for i in 0..self.compatible_brands.len()
            invariant
                !is_family_brand(self.major_brand),
                forall|j: int|
                    0 <= j < i ==> !is_family_brand(#[trigger] self.compatible_brands@[j]),
        {
            if family_brand(&self.compatible_brands[i]) {
                return true;
            }
        }
        false
    }

    /// Structural classification of the declared brands.
    pub fn classify(&self) -> (c: BrandClass)
        ensures
            c == self.deep_view().class(),
    {
        BrandClass {
            image_collection: self.has_brand(&BRAND_MIF1) || self.has_brand(&BRAND_MIF2)
                || self.has_brand(&BRAND_HEIC) || self.has_brand(&BRAND_HEIX) || self.has_brand(
                &BRAND_HEIM,
            ) || self.has_brand(&BRAND_HEIS) || self.has_brand(&BRAND_AVIF) || self.has_brand(
                &BRAND_JPEG,
            ) || self.has_brand(&BRAND_AVCI) || self.has_brand(&BRAND_MIAF),
            image_sequence: self.has_brand(&BRAND_MSF1) || self.has_brand(&BRAND_HEVC)
                || self.has_brand(&BRAND_HEVX) || self.has_brand(&BRAND_HEVM) || self.has_brand(
                &BRAND_HEVS,
            ) || self.has_brand(&BRAND_AVIS) || self.has_brand(&BRAND_AVIO) || self.has_brand(
                &BRAND_JPGS,
            ) || self.has_brand(&BRAND_AVCS),
            miaf: self.has_brand(&BRAND_MIAF) || self.has_brand(&BRAND_MIHB) || self.has_brand(
                &BRAND_MIHA,
            ) || self.has_brand(&BRAND_MIHE) || self.has_brand(&BRAND_MIAB) || self.has_brand(
                &BRAND_MA1B,
            ) || self.has_brand(&BRAND_MA1A),
            hevc: self.has_brand(&BRAND_HEIC) || self.has_brand(&BRAND_HEIX) || self.has_brand(
                &BRAND_HEVC,
            ) || self.has_brand(&BRAND_HEVX) || self.has_brand(&BRAND_HEIM) || self.has_brand(
                &BRAND_HEIS,
            ) || self.has_brand(&BRAND_HEVM) || self.has_brand(&BRAND_HEVS) || self.has_brand(
                &BRAND_MIHB,
            ) || self.has_brand(&BRAND_MIHA) || self.has_brand(&BRAND_MIHE),
            av1: self.has_brand(&BRAND_AVIF) || self.has_brand(&BRAND_AVIS) || self.has_brand(
                &BRAND_AVIO,
            ) || self.has_brand(&BRAND_MA1B) || self.has_brand(&BRAND_MA1A),
            predictive_items: self.has_brand(&BRAND_PRED),
        }
    }

    /// Serialize as an `ftyp` (or `styp`) box.
    pub fn to_box(&self) -> (v: Vec<u8>)
        ensures
            v@ == box_bytes(self.box_type, self.deep_view().body()),
    {
        let mut body: Vec<u8> = Vec::new();
        put(&mut body, self.major_brand.as_slice());
        put32(&mut body, self.minor_version);
        let ghost brands = self.compatible_brands@;
        proof {
            assert(brands.take(0) =~= Seq::empty());
        }
        for i in 0..self.compatible_brands.len()
            invariant
                brands == self.compatible_brands@,
                body@ =~= self.major_brand@ + enc32(self.minor_version) + brand_bytes(
                    brands.take(i as int),
                ),
        {
            proof {
                assert(brands.take(i + 1).drop_last() =~= brands.take(i as int));
            }
            put(&mut body, self.compatible_brands[i].as_slice());
        }
        proof {
            assert(brands.take(brands.len() as int) =~= brands);
            assert(body@ =~= self.deep_view().body());
        }
        boxed(&self.box_type, body.as_slice())
    }
}

/// What the declared brands say about the file layout.
#[derive(Clone, Copy, Debug, Default, PartialEq, Eq)]
pub struct BrandClass {
    /// `mif1` / `heic` / `avif` / … — a `meta`-box image collection.
    pub image_collection: bool,
    /// `msf1` / `hevc` / `avis` / … — a `moov` image sequence.
    pub image_sequence: bool,
    /// Any MIAF brand or profile brand.
    pub miaf: bool,
    /// Any HEVC codec brand.
    pub hevc: bool,
    /// Any AV1 codec brand.
    pub av1: bool,
    /// `pred` (predictively coded image items) declared.
    pub predictive_items: bool,
}

/// Bytes of an `ftyp` at offset 0 that are at hand: its declared size, cut off
/// at the end of the buffer.
pub open spec fn probed_end(buf: Seq<u8>) -> int {
    if be32(buf, 0) <= buf.len() {
        be32(buf, 0) as int
    } else {
        buf.len() as int
    }
}

/// Whether an `ftyp` at offset 0 has a HEIF-family brand as its major brand or
/// among the compatible brands that are at hand.
pub open spec fn probes_as_heif(buf: Seq<u8>) -> bool {
    &&& buf.len() >= 16
    &&& fourcc_at(buf, 4) == tags::FTYP
    &&& be32(buf, 0) >= 16
    &&& exists|i: int|
        0 <= i < (probed_end(buf) - 8) / 4 && i != 1 && is_family_brand(
            #[trigger] fourcc_at(buf, 8 + 4 * i),
        )
}

/// Content probe over the first bytes of a file: `100` when an `ftyp`
/// at offset 0 declares a HEIF-family brand, `0` otherwise. Files with
/// only generic ISOBMFF / QuickTime brands (`isom`, `mp42`, `qt  `, …)
/// score 0 so the MP4 / MOV demuxers keep them.
pub fn probe_score(buf: &[u8]) -> (s: u8)
    ensures
        s == (if probes_as_heif(buf@) {
            100u8
        } else {
            0u8
        }),
{
    if buf.len() < 16 {
        return 0;
    }
    let t: FourCc = [buf[4], buf[5], buf[6], buf[7]];
    if !fourcc_eq(&t, &tags::FTYP) {
        return 0;
    }
    let size: u32 = get32(buf, 0);
    if size < 16 {
        return 0;
    }
    let end: usize = if size as u64 <= buf.len() as u64 {
        size as usize
    } else {
        buf.len()
    };
    let n: usize = (end - 8) / 4;
    for i in 0..n
        invariant
            n == (end - 8) / 4,
            end <= buf@.len(),
            16 <= end,
            forall|j: int|
                0 <= j < i && j != 1 ==> !is_family_brand(#[trigger] fourcc_at(buf@, 8 + 4 * j)),
            end == probed_end(buf@),
            buf@.len() >= 16,
            fourcc_at(buf@, 4) == tags::FTYP,
            be32(buf@, 0) >= 16,
    {
        // Index 1 is the minor version.
        if i != 1 {
            let p: usize = 8 + 4 * i;
            let b: FourCc = [buf[p], buf[p + 1], buf[p + 2], buf[p + 3]];
            assert(b == fourcc_at(buf@, 8 + 4 * (i as int)));
            if family_brand(&b) {
                return 100;
            }
        }
    }
    0
}

proof fn lemma_brand_bytes(brands: Seq<FourCc>, i: int)
    requires
        0 <= i <= brands.len(),
    ensures
        brand_bytes(brands).len() == 4 * brands.len(),
        i < brands.len() ==> fourcc_at(brand_bytes(brands), 4 * i) == brands[i],
    decreases brands.len(),
{
    if brands.len() > 0 {
        let rest = brands.drop_last();
        assert(brands.last()@.len() == 4);
        if i < rest.len() {
            lemma_brand_bytes(rest, i);
            assert(fourcc_at(brand_bytes(brands), 4 * i) =~= fourcc_at(brand_bytes(rest), 4 * i));
        } else {
            lemma_brand_bytes(rest, 0);
            if i < brands.len() {
                assert(fourcc_at(brand_bytes(brands), 4 * i) =~= brands.last());
            }
        }
    }
}

/// Parsing the payload of a serialized file type gives the file type back.
#[verifier::rlimit(50)]
pub proof fn law_file_type_round_trip(ft: FileTypeModel)
    ensures
        file_type_of(ft.box_type, ft.body()) == Ok::<FileTypeModel, ErrorKind>(ft),
{
    let p = ft.body();
    let b = ft.compatible_brands;
    let t = brand_bytes(b);
    lemma_brand_bytes(b, 0);
    assert(p.len() == 8 + 4 * b.len());
    crate::bytes::lemma_be32_enc32(ft.major_brand@, ft.minor_version, t);
    assert(fourcc_at(p, 0) =~= ft.major_brand);
    assert forall|i: int| 0 <= i < b.len() implies #[trigger] fourcc_at(p, 8 + 4 * i) == b[i] by {
        lemma_brand_bytes(b, i);
        assert(fourcc_at(p, 8 + 4 * i) =~= fourcc_at(t, 4 * i));
    }
    assert(file_type_of(ft.box_type, p)->Ok_0.compatible_brands =~= b);
}

/// The list of all brands holds every declared brand exactly once.
#[verifier::rlimit(50)]
pub proof fn law_all_brands(ft: FileTypeModel)
    ensures
        distinct(ft.brands()).no_duplicates(),
        forall|b: FourCc| #[trigger] distinct(ft.brands()).contains(b) <==> ft.has(b),
{
    lemma_distinct(ft.brands());
    assert forall|b: FourCc| #[trigger] distinct(ft.brands()).contains(b) <==> ft.has(b) by {
        assert(ft.brands().contains(b) <==> ft.has(b)) by {
            assert(ft.brands()[0] == ft.major_brand);
            if ft.compatible_brands.contains(b) {
                let i = choose|i: int|
                    0 <= i < ft.compatible_brands.len() && ft.compatible_brands[i] == b;
                assert(ft.brands()[i + 1] == b);
            }
        }
    }
}

proof fn lemma_distinct(s: Seq<FourCc>)
    ensures
        distinct(s).no_duplicates(),
        forall|b: FourCc| #[trigger] distinct(s).contains(b) <==> s.contains(b),
    decreases s.len(),
{
    if s.len() > 0 {
        lemma_distinct(s.drop_last());
        let d = distinct(s.drop_last());
        assert forall|b: FourCc| #[trigger] distinct(s).contains(b) <==> s.contains(b) by {
            assert(s =~= s.drop_last().push(s.last()));
            assert(s.contains(b) <==> s.drop_last().contains(b) || b == s.last()) by {
                if s.drop_last().contains(b) {
                    let i = choose|i: int| 0 <= i < s.drop_last().len() && s.drop_last()[i] == b;
                    assert(s[i] == b);
                }
                assert(s[s.len() - 1] == s.last());
            }
            if !d.contains(s.last()) {
                assert(d.push(s.last())[d.len() as int] == s.last());
                if d.contains(b) {
                    let i = choose|i: int| 0 <= i < d.len() && d[i] == b;
                    assert(d.push(s.last())[i] == b);
                }
            }
        }
    }
}

/// A serialized `ftyp` box probes as HEIF exactly when the file type declares a
/// HEIF-family brand.
#[verifier::rlimit(50)]
pub proof fn law_probe_of_file_type(ft: FileTypeModel)
    requires
        ft.box_type == tags::FTYP,
        ft.body().len() + 8 <= u32::MAX,
    ensures
        probes_as_heif(box_bytes(ft.box_type, ft.body())) <==> ft.in_family(),
{
    let p = ft.body();
    let buf = box_bytes(ft.box_type, p);
    let b = ft.compatible_brands;
    law_file_type_round_trip(ft);
    lemma_brand_bytes(b, 0);
    assert(p.len() == 8 + 4 * b.len());
    let size = (p.len() + 8) as u32;
    crate::bytes::lemma_be32_enc32(Seq::empty(), size, ft.box_type@ + p);
    assert(buf =~= Seq::<u8>::empty() + enc32(size) + (ft.box_type@ + p));
    assert(fourcc_at(buf, 4) =~= ft.box_type);
    assert(probed_end(buf) == buf.len());
    assert forall|i: int| 0 <= i < p.len() / 4 implies #[trigger] fourcc_at(buf, 8 + 4 * i)
        == fourcc_at(p, 4 * i) by {
        assert(fourcc_at(buf, 8 + 4 * i) =~= fourcc_at(p, 4 * i));
    }
    if ft.in_family() {
        let x = choose|x: FourCc| ft.has(x) && #[trigger] is_family_brand(x);
        if ft.major_brand == x {
            assert(fourcc_at(buf, 8 + 4 * 0int) == x);
        } else {
            let i = choose|i: int| 0 <= i < b.len() && b[i] == x;
            let got = Seq::new((p.len() / 4 - 2) as nat, |i: int| fourcc_at(p, 8 + 4 * i));
            assert(got[i] == b[i]);
            assert(fourcc_at(buf, 8 + 4 * (i + 2)) == x);
        }
    }
    if probes_as_heif(buf) {
        let i = choose|i: int|
            0 <= i < (probed_end(buf) - 8) / 4 && i != 1 && is_family_brand(
                #[trigger] fourcc_at(buf, 8 + 4 * i),
            );
        let x = fourcc_at(buf, 8 + 4 * i);
        if i == 0 {
            assert(ft.has(x));
        } else {
            let got = Seq::new((p.len() / 4 - 2) as nat, |i: int| fourcc_at(p, 8 + 4 * i));
            assert(got[i - 2] == b[i - 2]);
            assert(ft.has(x));
        }
        assert(is_family_brand(x));
    }
}

} // verus!
