//! Image sequences (ISO/IEC 23008-12 §7): the `moov` / `trak` / `stbl`
//! sample tables of `pict` (and `vide` / `auxv`) tracks, their visual
//! sample entries (`hvc1` + `hvcC`, `av01` + `av1C`, `ccst`, `auxi`,
//! `colr`, `clap`, `pasp`) and the §7.2.1 track-header matrix.
//!
//! The walk is container-only: it produces a flat [`Sample`] table per
//! track (file offsets, sizes, decode / composition times, sync flags)
//! that a demuxer turns into packets.
use crate::av1c::{Av1Config, Av1Model};
use crate::avcc::{AvcConfig, AvcModel};
use crate::boxes::{fourcc_eq, fourcc_str, fourcc_text, FourCc};
use crate::bytes::{clone_vec, copy_lists, copy_vec, lists, option_text, span};
use crate::error::{ErrorKind, HeifError, Outcome, Result};
use crate::file::HeifFile;
use crate::hvcc::{HevcConfig, HevcModel};
use crate::lhvc::{LhevcConfig, LhevcModel};
use crate::meta::{RawProperty, RawPropertyModel};
use crate::props::{urn_kind, Amve, AuxC, AuxKind, Cclv, Clap, Clli, Colr, ColrModel, Mdcv, Pasp};
use crate::tags;
use vstd::prelude::*;

pub mod groups;
pub mod laws;
pub mod round_trip;
pub mod table;
pub mod track;

pub use groups::{parse_csgp, parse_prft, parse_sbgp, parse_sgpd, parse_ssix};
pub use track::parse_movie;




verus! {

/// Upper bound on the samples one track may expand to.
pub const MAX_SAMPLES: usize = 0x100_0000;

/// Upper bound on the tracks a movie may declare.
pub const MAX_TRACKS: usize = 0x1000;

/// Upper bound on sample-group runs / description entries per box.
pub const MAX_GROUP_ENTRIES: usize = 0x10_0000;

/// `ccst` — coding constraints (§7.2.3).
#[derive(Clone, Copy, Debug, PartialEq, Eq, Structural)]
pub struct CodingConstraints {
    /// `all_ref_pics_intra`.
    pub all_ref_pics_intra: bool,
    /// `intra_pred_used`.
    pub intra_pred_used: bool,
    /// `max_ref_per_pic` (15 = unconstrained).
    pub max_ref_per_pic: u8,
}

/// One visual sample entry of a track's `stsd`.
#[derive(Debug, PartialEq, Eq)]
pub struct SampleEntry {
    /// Entry type (`hvc1`, `hev1`, `av01`, …).
    pub entry_type: FourCc,
    /// `data_reference_index`.
    pub data_reference_index: u16,
    /// `width` from the VisualSampleEntry.
    pub width: u16,
    /// `height` from the VisualSampleEntry.
    pub height: u16,
    /// `hvcC` child, when present.
    pub hvcc: Option<HevcConfig>,
    /// `av1C` child, when present.
    pub av1c: Option<Av1Config>,
    /// `avcC` child, when present (`avc1` / `avc3` entries).
    pub avcc: Option<AvcConfig>,
    /// `lhvC` child, when present (`lhv1` / `hvc2` entries).
    pub lhvc: Option<LhevcConfig>,
    /// `ccst` child (mandatory for `pict` tracks).
    pub ccst: Option<CodingConstraints>,
    /// `auxi` `aux_track_type` URN (auxiliary tracks).
    pub aux_track_type: Option<String>,
    /// `colr` children, in order.
    pub colr: Vec<Colr>,
    /// `clap` child.
    pub clap: Option<Clap>,
    /// `pasp` child.
    pub pasp: Option<Pasp>,
    /// `clli` child (ISO/IEC 14496-12 §12.1.6).
    pub clli: Option<Clli>,
    /// `mdcv` child (§12.1.7).
    pub mdcv: Option<Mdcv>,
    /// `cclv` child (§12.1.8).
    pub cclv: Option<Cclv>,
    /// `amve` child (§12.1.9).
    pub amve: Option<Amve>,
    /// Every child box, raw, in order.
    pub children: Vec<RawProperty>,
}

/// Model of [`SampleEntry`].
#[verifier::ext_equal]
pub struct SampleEntryModel {
    /// Entry type (`hvc1`, `hev1`, `av01`, …).
    pub entry_type: FourCc,
    /// `data_reference_index`.
    pub data_reference_index: u16,
    /// `width` from the VisualSampleEntry.
    pub width: u16,
    /// `height` from the VisualSampleEntry.
    pub height: u16,
    /// `hvcC` child, when present.
    pub hvcc: Option<HevcModel>,
    /// `av1C` child, when present.
    pub av1c: Option<Av1Model>,
    /// `avcC` child, when present (`avc1` / `avc3` entries).
    pub avcc: Option<AvcModel>,
    /// `lhvC` child, when present (`lhv1` / `hvc2` entries).
    pub lhvc: Option<LhevcModel>,
    /// `ccst` child (mandatory for `pict` tracks).
    pub ccst: Option<CodingConstraints>,
    /// `auxi` `aux_track_type` URN (auxiliary tracks).
    pub aux_track_type: Option<Seq<char>>,
    /// `colr` children, in order.
    pub colr: Seq<ColrModel>,
    /// `clap` child.
    pub clap: Option<Clap>,
    /// `pasp` child.
    pub pasp: Option<Pasp>,
    /// `clli` child (ISO/IEC 14496-12 §12.1.6).
    pub clli: Option<Clli>,
    /// `mdcv` child (§12.1.7).
    pub mdcv: Option<Mdcv>,
    /// `cclv` child (§12.1.8).
    pub cclv: Option<Cclv>,
    /// `amve` child (§12.1.9).
    pub amve: Option<Amve>,
    /// Every child box, raw, in order.
    pub children: Seq<RawPropertyModel>,
}

impl View for SampleEntry {
    type V = SampleEntryModel;

    open spec fn view(&self) -> SampleEntryModel {
        SampleEntryModel {
            entry_type: self.entry_type,
            data_reference_index: self.data_reference_index,
            width: self.width,
            height: self.height,
            hvcc: self.hvcc.deep_view(),
            av1c: self.av1c.deep_view(),
            avcc: self.avcc.deep_view(),
            lhvc: self.lhvc.deep_view(),
            ccst: self.ccst,
            aux_track_type: option_text(self.aux_track_type),
            colr: self.colr.deep_view(),
            clap: self.clap,
            pasp: self.pasp,
            clli: self.clli,
            mdcv: self.mdcv,
            cclv: self.cclv,
            amve: self.amve,
            children: self.children.deep_view(),
        }
    }
}

impl DeepView for SampleEntry {
    type V = SampleEntryModel;

    open spec fn deep_view(&self) -> SampleEntryModel {
        self@
    }
}

impl Clone for SampleEntry {
    fn clone(&self) -> (r: Self)
        ensures
            r@ == self@,
    {
        SampleEntry {
            entry_type: self.entry_type,
            data_reference_index: self.data_reference_index,
            width: self.width,
            height: self.height,
            hvcc: match &self.hvcc { Some(v) => Some(v.clone()), None => None },
            av1c: match &self.av1c { Some(v) => Some(v.clone()), None => None },
            avcc: match &self.avcc { Some(v) => Some(v.clone()), None => None },
            lhvc: match &self.lhvc { Some(v) => Some(v.clone()), None => None },
            ccst: self.ccst,
            aux_track_type: match &self.aux_track_type { Some(s) => Some(s.clone()), None => None },
            colr: clone_vec(&self.colr),
            clap: self.clap,
            pasp: self.pasp,
            clli: self.clli,
            mdcv: self.mdcv,
            cclv: self.cclv,
            amve: self.amve,
            children: clone_vec(&self.children),
        }
    }
}

/// One sample of a track.
#[derive(Clone, Copy, Debug, PartialEq, Eq, Structural)]
pub struct Sample {
    /// Absolute file offset.
    pub offset: u64,
    /// Size in bytes.
    pub size: u32,
    /// Decode time in the media timescale.
    pub dts: u64,
    /// Composition offset (`ctts`) in the media timescale.
    pub cts_offset: i64,
    /// Duration (`stts` delta) in the media timescale.
    pub duration: u32,
    /// Sync sample (`stss`; every sample when the box is absent).
    pub is_sync: bool,
    /// 1-based `stsd` entry index.
    pub description_index: u32,
}

impl Sample {
    /// Presentation time (`dts + cts_offset`), saturating at 0 and taken
    /// modulo 2⁶⁴.
    pub fn pts(&self) -> (r: u64)
        ensures
            r == (if self.dts + self.cts_offset < 0 {
                0
            } else {
                (self.dts + self.cts_offset) % 0x1_0000_0000_0000_0000
            }),
    {
        let t: i128 = self.dts as i128 + self.cts_offset as i128;
        if t < 0 {
            0
        } else if t <= u64::MAX as i128 {
            t as u64
        } else {
            (t - 0x1_0000_0000_0000_0000) as u64
        }
    }
}

/// One `elst` entry.
#[derive(Clone, Copy, Debug, PartialEq, Eq, Structural)]
pub struct Edit {
    /// `segment_duration` (movie timescale).
    pub segment_duration: u64,
    /// `media_time` (media timescale; −1 = empty edit).
    pub media_time: i64,
    /// `media_rate` as a 16.16 fixed-point value.
    pub media_rate: i32,
}

/// Orientation derived from the §7.2.1 track-header matrix.
#[derive(Clone, Copy, Debug, PartialEq, Eq, Structural)]
pub struct TrackOrientation {
    /// Anti-clockwise rotation in units of 90°.
    pub rotation: u8,
    /// Horizontal mirror (left/right exchanged) before rotation.
    pub mirror: bool,
}

/// A sample-to-group mapping (`sbgp`, ISO/IEC 14496-12 §8.9.2, or the
/// compact `csgp`, §8.9.5, expanded to the same run list).
#[derive(Debug, PartialEq, Eq)]
pub struct SampleGroup {
    /// `grouping_type`.
    pub grouping_type: FourCc,
    /// `grouping_type_parameter` (`sbgp` v1 / `csgp` with the presence flag).
    pub grouping_type_parameter: Option<u32>,
    /// `(sample_count, group_description_index)` runs in sample order;
    /// index 0 = no group, 1-based into the matching `sgpd` (a set
    /// `csgp` msb marks a fragment-local description: bit 31 kept).
    pub entries: Vec<(u32, u32)>,
    /// `true` when parsed from a `csgp` box.
    pub compact: bool,
}

/// Model of [`SampleGroup`].
#[verifier::ext_equal]
pub struct SampleGroupModel {
    /// `grouping_type`.
    pub grouping_type: FourCc,
    /// `grouping_type_parameter` (`sbgp` v1 / `csgp` with the presence flag).
    pub grouping_type_parameter: Option<u32>,
    /// `(sample_count, group_description_index)` runs in sample order;
    /// index 0 = no group, 1-based into the matching `sgpd` (a set
    /// `csgp` msb marks a fragment-local description: bit 31 kept).
    pub entries: Seq<(u32, u32)>,
    /// `true` when parsed from a `csgp` box.
    pub compact: bool,
}

impl View for SampleGroup {
    type V = SampleGroupModel;

    open spec fn view(&self) -> SampleGroupModel {
        SampleGroupModel {
            grouping_type: self.grouping_type,
            grouping_type_parameter: self.grouping_type_parameter,
            entries: self.entries@,
            compact: self.compact,
        }
    }
}

impl DeepView for SampleGroup {
    type V = SampleGroupModel;

    open spec fn deep_view(&self) -> SampleGroupModel {
        self@
    }
}

impl Clone for SampleGroup {
    fn clone(&self) -> (r: Self)
        ensures
            r@ == self@,
    {
        SampleGroup {
            grouping_type: self.grouping_type,
            grouping_type_parameter: self.grouping_type_parameter,
            entries: copy_vec(&self.entries),
            compact: self.compact,
        }
    }
}

/// The index that the runs give sample `index`, the first of them starting at
/// sample `at`.
pub open spec fn run_index(runs: Seq<(u32, u32)>, at: int, index: int) -> Option<u32>
    decreases runs.len(),
{
    if runs.len() == 0 {
        None
    } else if index < at + runs[0].0 {
        Some(runs[0].1)
    } else {
        run_index(runs.drop_first(), at + runs[0].0, index)
    }
}

impl SampleGroup {
    /// The `group_description_index` of sample `index` (0-based), or
    /// `None` past the described samples.
    pub fn index_of(&self, index: usize) -> (r: Option<u32>)
        ensures
            r == run_index(self.entries@, 0, index as int),
    {
        let mut left: usize = index;
        let mut i: usize = 0;
        let ghost goal = run_index(self.entries@, 0, index as int);
        assert(self.entries@.skip(0) =~= self.entries@);
        while i < self.entries.len()
            invariant
                i <= self.entries@.len(),
                left <= index,
                goal == run_index(self.entries@, 0, index as int),
                goal == run_index(self.entries@.skip(i as int), index - left, index as int),
            decreases self.entries@.len() - i,
        {
            let (count, gdi) = self.entries[i];
            assert(self.entries@.skip(i as int)[0] == self.entries@[i as int]);
            assert(self.entries@.skip(i as int).drop_first() =~= self.entries@.skip(i + 1));
            if left as u64 >= count as u64 {
                left = left - count as usize;
            } else {
                return Some(gdi);
            }
            i = i + 1;
        }
        None
    }
}

/// One `sgpd` box (§8.9.3): the group descriptions of a grouping type;
/// entries stay raw (their layout is per grouping type).
#[derive(Debug, PartialEq, Eq)]
pub struct SampleGroupDescription {
    /// `grouping_type`.
    pub grouping_type: FourCc,
    /// Box version.
    pub version: u8,
    /// `default_length` (v1+; 0 = per-entry `description_length`).
    pub default_length: u32,
    /// `default_group_description_index` (v2+; 0 = no default).
    pub default_group_description_index: u32,
    /// The `SampleGroupDescriptionEntry` bodies, 1-based in the file.
    pub entries: Vec<Vec<u8>>,
}

/// Model of [`SampleGroupDescription`].
#[verifier::ext_equal]
pub struct SampleGroupDescriptionModel {
    /// `grouping_type`.
    pub grouping_type: FourCc,
    /// Box version.
    pub version: u8,
    /// `default_length` (v1+; 0 = per-entry `description_length`).
    pub default_length: u32,
    /// `default_group_description_index` (v2+; 0 = no default).
    pub default_group_description_index: u32,
    /// The `SampleGroupDescriptionEntry` bodies, 1-based in the file.
    pub entries: Seq<Seq<u8>>,
}

impl View for SampleGroupDescription {
    type V = SampleGroupDescriptionModel;

    open spec fn view(&self) -> SampleGroupDescriptionModel {
        SampleGroupDescriptionModel {
            grouping_type: self.grouping_type,
            version: self.version,
            default_length: self.default_length,
            default_group_description_index: self.default_group_description_index,
            entries: lists(self.entries@),
        }
    }
}

impl DeepView for SampleGroupDescription {
    type V = SampleGroupDescriptionModel;

    open spec fn deep_view(&self) -> SampleGroupDescriptionModel {
        self@
    }
}

impl Clone for SampleGroupDescription {
    fn clone(&self) -> (r: Self)
        ensures
            r@ == self@,
    {
        SampleGroupDescription {
            grouping_type: self.grouping_type,
            version: self.version,
            default_length: self.default_length,
            default_group_description_index: self.default_group_description_index,
            entries: copy_lists(&self.entries),
        }
    }
}

/// A `prft` box (§8.16.5): producer reference time for one track.
#[derive(Clone, Copy, Debug, PartialEq, Eq, Structural)]
pub struct ProducerReferenceTime {
    /// Box flags (0 / 1 / 2 / 4 / 8 / 16 / 24, §8.16.5.3).
    pub flags: u32,
    /// `reference_track_ID`.
    pub reference_track_id: u32,
    /// `ntp_timestamp` (NTP 64-bit format).
    pub ntp_timestamp: u64,
    /// `media_time` (32-bit in v0, 64-bit in v1).
    pub media_time: u64,
}

/// The models of the ranges of every subsegment.
pub open spec fn range_lists(v: Seq<Vec<(u8, u32)>>) -> Seq<Seq<(u8, u32)>> {
    Seq::new(v.len(), |i: int| v[i]@)
}

fn copy_ranges(v: &Vec<Vec<(u8, u32)>>) -> (r: Vec<Vec<(u8, u32)>>)
    ensures
        range_lists(r@) == range_lists(v@),
{
    let mut out: Vec<Vec<(u8, u32)>> = Vec::new();
    for i in 0..v.len()
        invariant
            out@.len() == i,
            forall|k: int| 0 <= k < i ==> (#[trigger] out@[k])@ == v@[k]@,
    {
        out.push(copy_vec(&v[i]));
    }
    assert(range_lists(out@) =~= range_lists(v@));
    out
}

/// An `ssix` box (§8.16.4): per subsegment, `(level, range_size)` runs.
#[derive(Debug, PartialEq, Eq)]
pub struct SubsegmentIndex {
    /// One `Vec<(level, range_size)>` per subsegment.
    pub subsegments: Vec<Vec<(u8, u32)>>,
}

/// Model of [`SubsegmentIndex`].
#[verifier::ext_equal]
pub struct SubsegmentIndexModel {
    /// One `Vec<(level, range_size)>` per subsegment.
    pub subsegments: Seq<Seq<(u8, u32)>>,
}

impl View for SubsegmentIndex {
    type V = SubsegmentIndexModel;

    open spec fn view(&self) -> SubsegmentIndexModel {
        SubsegmentIndexModel {
            subsegments: range_lists(self.subsegments@),
        }
    }
}

impl DeepView for SubsegmentIndex {
    type V = SubsegmentIndexModel;

    open spec fn deep_view(&self) -> SubsegmentIndexModel {
        self@
    }
}

impl Clone for SubsegmentIndex {
    fn clone(&self) -> (r: Self)
        ensures
            r@ == self@,
    {
        SubsegmentIndex {
            subsegments: copy_ranges(&self.subsegments),
        }
    }
}

/// The models of a list of track references.
pub open spec fn reference_lists(v: Seq<(FourCc, Vec<u32>)>) -> Seq<(FourCc, Seq<u32>)> {
    Seq::new(v.len(), |i: int| (v[i].0, v[i].1@))
}

fn copy_references(v: &Vec<(FourCc, Vec<u32>)>) -> (r: Vec<(FourCc, Vec<u32>)>)
    ensures
        reference_lists(r@) == reference_lists(v@),
{
    let mut out: Vec<(FourCc, Vec<u32>)> = Vec::new();
    for i in 0..v.len()
        invariant
            out@.len() == i,
            forall|k: int| 0 <= k < i ==> (#[trigger] out@[k]).0 == v@[k].0 && out@[k].1@ == v@[k].1@,
    {
        out.push((v[i].0, copy_vec(&v[i].1)));
    }
    assert(reference_lists(out@) =~= reference_lists(v@));
    out
}

/// One track.
#[derive(Debug, PartialEq, Eq)]
pub struct Track {
    /// `track_ID`.
    pub track_id: u32,
    /// `track_enabled` (tkhd flag 1).
    pub enabled: bool,
    /// `track_in_movie` (tkhd flag 2).
    pub in_movie: bool,
    /// `handler_type` (`pict`, `vide`, `auxv`, …).
    pub handler: FourCc,
    /// Media timescale (`mdhd`).
    pub timescale: u32,
    /// Media duration (`mdhd`).
    pub duration: u64,
    /// Presentation width (`tkhd`, 16.16 → integer part).
    pub width: u32,
    /// Presentation height (`tkhd`, 16.16 → integer part).
    pub height: u32,
    /// `tkhd` matrix, file order (`a b u c d v x y w`).
    pub matrix: [i32; 9],
    /// `stsd` entries.
    pub sample_entries: Vec<SampleEntry>,
    /// The samples in decode order.
    pub samples: Vec<Sample>,
    /// `tref` references `(type, track ids)`.
    pub references: Vec<(FourCc, Vec<u32>)>,
    /// `elst` entries.
    pub edits: Vec<Edit>,
    /// `sbgp` / `csgp` sample-to-group mappings of the `stbl`, in file order.
    pub sample_groups: Vec<SampleGroup>,
    /// `sgpd` group descriptions of the `stbl`, in file order.
    pub sample_group_descriptions: Vec<SampleGroupDescription>,
}

/// Model of [`Track`].
#[verifier::ext_equal]
pub struct TrackModel {
    /// `track_ID`.
    pub track_id: u32,
    /// `track_enabled` (tkhd flag 1).
    pub enabled: bool,
    /// `track_in_movie` (tkhd flag 2).
    pub in_movie: bool,
    /// `handler_type` (`pict`, `vide`, `auxv`, …).
    pub handler: FourCc,
    /// Media timescale (`mdhd`).
    pub timescale: u32,
    /// Media duration (`mdhd`).
    pub duration: u64,
    /// Presentation width (`tkhd`, 16.16 → integer part).
    pub width: u32,
    /// Presentation height (`tkhd`, 16.16 → integer part).
    pub height: u32,
    /// `tkhd` matrix, file order (`a b u c d v x y w`).
    pub matrix: [i32; 9],
    /// `stsd` entries.
    pub sample_entries: Seq<SampleEntryModel>,
    /// The samples in decode order.
    pub samples: Seq<Sample>,
    /// `tref` references `(type, track ids)`.
    pub references: Seq<(FourCc, Seq<u32>)>,
    /// `elst` entries.
    pub edits: Seq<Edit>,
    /// `sbgp` / `csgp` sample-to-group mappings of the `stbl`, in file order.
    pub sample_groups: Seq<SampleGroupModel>,
    /// `sgpd` group descriptions of the `stbl`, in file order.
    pub sample_group_descriptions: Seq<SampleGroupDescriptionModel>,
}

impl View for Track {
    type V = TrackModel;

    open spec fn view(&self) -> TrackModel {
        TrackModel {
            track_id: self.track_id,
            enabled: self.enabled,
            in_movie: self.in_movie,
            handler: self.handler,
            timescale: self.timescale,
            duration: self.duration,
            width: self.width,
            height: self.height,
            matrix: self.matrix,
            sample_entries: self.sample_entries.deep_view(),
            samples: self.samples@,
            references: reference_lists(self.references@),
            edits: self.edits@,
            sample_groups: self.sample_groups.deep_view(),
            sample_group_descriptions: self.sample_group_descriptions.deep_view(),
        }
    }
}

impl DeepView for Track {
    type V = TrackModel;

    open spec fn deep_view(&self) -> TrackModel {
        self@
    }
}

impl Clone for Track {
    fn clone(&self) -> (r: Self)
        ensures
            r@ == self@,
    {
        Track {
            track_id: self.track_id,
            enabled: self.enabled,
            in_movie: self.in_movie,
            handler: self.handler,
            timescale: self.timescale,
            duration: self.duration,
            width: self.width,
            height: self.height,
            matrix: self.matrix,
            sample_entries: clone_vec(&self.sample_entries),
            samples: copy_vec(&self.samples),
            references: copy_references(&self.references),
            edits: copy_vec(&self.edits),
            sample_groups: clone_vec(&self.sample_groups),
            sample_group_descriptions: clone_vec(&self.sample_group_descriptions),
        }
    }
}

/// Whether a mapping is for a grouping type and parameter.
pub open spec fn maps_group(g: SampleGroupModel, t: FourCc, parameter: Option<u32>) -> bool {
    g.grouping_type == t && (parameter is None || g.grouping_type_parameter == parameter)
}

/// The index the first mapping that has one gives a sample.
pub open spec fn mapped_index(
    groups: Seq<SampleGroupModel>,
    t: FourCc,
    parameter: Option<u32>,
    index: int,
) -> Option<u32>
    decreases groups.len(),
{
    if groups.len() == 0 {
        None
    } else if maps_group(groups[0], t, parameter) && run_index(groups[0].entries, 0, index) is Some {
        run_index(groups[0].entries, 0, index)
    } else {
        mapped_index(groups.drop_first(), t, parameter, index)
    }
}

/// The first description box of a grouping type.
pub open spec fn description_of(
    d: Seq<SampleGroupDescriptionModel>,
    t: FourCc,
) -> Option<SampleGroupDescriptionModel>
    decreases d.len(),
{
    if d.len() == 0 {
        None
    } else if d[0].grouping_type == t {
        Some(d[0])
    } else {
        description_of(d.drop_first(), t)
    }
}

/// An index without the fragment-local mark.
pub open spec fn local_index(i: u32) -> int {
    i as int % 0x8000_0000
}

/// Whether a matrix turns and mirrors as given.
pub open spec fn orients(m: [i32; 9], o: TrackOrientation) -> bool {
    let one: int = 0x1_0000;
    let (a, b, c, d) = (m[0] as int, m[1] as int, m[3] as int, m[4] as int);
    let turned = if o.rotation == 0 {
        (one, 0int, 0int, one)
    } else if o.rotation == 1 {
        (0, -one, one, 0)
    } else if o.rotation == 2 {
        (-one, 0, 0, -one)
    } else {
        (0, one, -one, 0)
    };
    let mirrored = (-turned.0, -turned.1, turned.2, turned.3);
    &&& m[8] == 0x4000_0000
    &&& o.rotation < 4
    &&& (a, b, c, d) == (if o.mirror {
        mirrored
    } else {
        turned
    })
}

/// The ids of the references of a type, in order.
pub open spec fn ids_of(refs: Seq<(FourCc, Seq<u32>)>, t: FourCc) -> Seq<u32>
    decreases refs.len(),
{
    if refs.len() == 0 {
        Seq::empty()
    } else if refs.last().0 == t {
        ids_of(refs.drop_last(), t) + refs.last().1
    } else {
        ids_of(refs.drop_last(), t)
    }
}

/// The sum of the durations, held to the largest count.
pub open spec fn duration_sum(s: Seq<Sample>) -> u64
    decreases s.len(),
{
    if s.len() == 0 {
        0
    } else {
        let t = duration_sum(s.drop_last()) + s.last().duration;
        if t > u64::MAX {
            u64::MAX
        } else {
            t as u64
        }
    }
}

/// Whether a sample starts at or before `dts` of another timescale.
pub open spec fn starts_by(s: Sample, here: u32, dts: u64, there: u32) -> bool {
    s.dts * at_least_one(there) <= dts * at_least_one(here)
}

/// A timescale, 1 in place of 0.
pub open spec fn at_least_one(t: u32) -> int {
    if t == 0 {
        1
    } else {
        t as int
    }
}

/// How many of the first samples start at or before `dts` of another timescale.
pub open spec fn started(s: Seq<Sample>, here: u32, dts: u64, there: u32) -> int
    decreases s.len(),
{
    if s.len() == 0 || !starts_by(s[0], here, dts, there) {
        0
    } else {
        1 + started(s.drop_first(), here, dts, there)
    }
}

impl TrackModel {
    /// The 1-based description index that applies to a sample.
    pub open spec fn group_index(self, t: FourCc, parameter: Option<u32>, index: int) -> Option<u32> {
        let idx = match mapped_index(self.sample_groups, t, parameter, index) {
            Some(i) => i,
            None => match description_of(self.sample_group_descriptions, t) {
                Some(d) => d.default_group_description_index,
                None => 0,
            },
        };
        if local_index(idx) != 0 {
            Some(idx)
        } else {
            None
        }
    }

    /// The description entry that applies to a sample.
    pub open spec fn group_entry(self, t: FourCc, parameter: Option<u32>, index: int) -> Option<
        Seq<u8>,
    > {
        match (
            self.group_index(t, parameter, index),
            description_of(self.sample_group_descriptions, t),
        ) {
            (Some(i), Some(d)) => if local_index(i) <= d.entries.len() {
                Some(d.entries[local_index(i) - 1])
            } else {
                None
            },
            _ => None,
        }
    }

    /// Whether the track is visual.
    pub open spec fn visual(self) -> bool {
        self.handler == tags::PICT || self.handler == tags::VIDE || self.handler == tags::AUXV
    }

    /// The auxiliary kind of the first sample entry.
    pub open spec fn auxiliary(self) -> Option<AuxKind> {
        if self.sample_entries.len() == 0 {
            None
        } else {
            match self.sample_entries[0].aux_track_type {
                Some(urn) => Some(urn_kind(urn)),
                None => None,
            }
        }
    }
}

impl Track {
    /// The 1-based `sgpd` entry index that applies to sample `index`
    /// for `grouping_type` (and `parameter`, when the mapping carries
    /// one): the `sbgp` / `csgp` mapping, else the `sgpd` default;
    /// `None` when neither maps the sample (or maps it to 0).
    pub fn group_description_index(
        &self,
        grouping_type: &FourCc,
        parameter: Option<u32>,
        index: usize,
    ) -> (r: Option<u32>)
        ensures
            r == self@.group_index(*grouping_type, parameter, index as int),
    {
        let mapped: Option<u32> = self.mapping(grouping_type, parameter, index);
        let idx: u32 = match mapped {
            Some(i) => i,
            None => match self.description(grouping_type) {
                Some(d) => d.default_group_description_index,
                None => 0,
            },
        };
        if idx % 0x8000_0000 != 0 {
            Some(idx)
        } else {
            None
        }
    }

    fn mapping(&self, t: &FourCc, parameter: Option<u32>, index: usize) -> (r: Option<u32>)
        ensures
            r == mapped_index(self@.sample_groups, *t, parameter, index as int),
    {
        let ghost all = self@.sample_groups;
        assert(all.skip(0) =~= all);
        for i in 0..self.sample_groups.len()
            invariant
                all == self.sample_groups.deep_view(),
                mapped_index(self@.sample_groups, *t, parameter, index as int) == mapped_index(
                    all.skip(i as int),
                    *t,
                    parameter,
                    index as int,
                ),
        {
            let g: &SampleGroup = &self.sample_groups[i];
            assert(all.skip(i as int)[0] == g@);
            assert(all.skip(i as int).drop_first() =~= all.skip(i + 1));
            let same: bool = match parameter {
                None => true,
                Some(p) => match g.grouping_type_parameter {
                    Some(q) => p == q,
                    None => false,
                },
            };
            if fourcc_eq(&g.grouping_type, t) && same {
                let found: Option<u32> = g.index_of(index);
                if found.is_some() {
                    return found;
                }
            }
        }
        None
    }

    fn description(&self, t: &FourCc) -> (r: Option<&SampleGroupDescription>)
        ensures
            match r {
                Some(d) => description_of(self@.sample_group_descriptions, *t) == Some(d@),
                None => description_of(self@.sample_group_descriptions, *t) is None,
            },
    {
        let ghost all = self@.sample_group_descriptions;
        assert(all.skip(0) =~= all);
        for i in 0..self.sample_group_descriptions.len()
            invariant
                all == self.sample_group_descriptions.deep_view(),
                description_of(self@.sample_group_descriptions, *t) == description_of(
                    all.skip(i as int),
                    *t,
                ),
        {
            let d: &SampleGroupDescription = &self.sample_group_descriptions[i];
            assert(all.skip(i as int)[0] == d@);
            assert(all.skip(i as int).drop_first() =~= all.skip(i + 1));
            if fourcc_eq(&d.grouping_type, t) {
                return Some(d);
            }
        }
        None
    }

    /// The raw `sgpd` entry that applies to sample `index` for
    /// `grouping_type` (see [`Track::group_description_index`]).
    pub fn group_description_of(
        &self,
        grouping_type: &FourCc,
        parameter: Option<u32>,
        index: usize,
    ) -> (r: Option<&[u8]>)
        ensures
            match r {
                Some(b) => self@.group_entry(*grouping_type, parameter, index as int) == Some(b@),
                None => self@.group_entry(*grouping_type, parameter, index as int) is None,
            },
    {
        match self.group_description_index(grouping_type, parameter, index) {
            None => None,
            Some(i) => {
                let k: usize = (i % 0x8000_0000) as usize;
                match self.description(grouping_type) {
                    None => None,
                    Some(d) => if k <= d.entries.len() {
                        Some(d.entries[k - 1].as_slice())
                    } else {
                        None
                    },
                }
            },
        }
    }

    /// `true` for image-sequence / video / auxiliary-video tracks.
    pub fn is_visual(&self) -> (r: bool)
        ensures
            r == self@.visual(),
    {
        fourcc_eq(&self.handler, &tags::PICT) || fourcc_eq(&self.handler, &tags::VIDE)
            || fourcc_eq(&self.handler, &tags::AUXV)
    }

    /// The first sample entry.
    pub fn primary_entry(&self) -> (r: Option<&SampleEntry>)
        ensures
            match r {
                Some(e) => self@.sample_entries.len() > 0 && e@ == self@.sample_entries[0],
                None => self@.sample_entries.len() == 0,
            },
    {
        if self.sample_entries.len() > 0 {
            Some(&self.sample_entries[0])
        } else {
            None
        }
    }

    /// The auxiliary kind announced by the first sample entry's `auxi`
    /// URN (alpha / depth / other), `None` for a non-auxiliary track.
    pub fn aux_kind(&self) -> (r: Option<AuxKind>)
        ensures
            r == self@.auxiliary(),
    {
        match self.primary_entry() {
            None => None,
            Some(e) => match &e.aux_track_type {
                None => None,
                Some(urn) => {
                    let aux = AuxC { aux_type: urn.clone(), aux_subtype: Vec::new() };
                    Some(aux.kind())
                },
            },
        }
    }

    /// Index of the sample that is time-parallel to decode time `dts`
    /// of another track with `timescale` (HEIF §7.5.3.1: the sample of
    /// this track whose time span covers that instant — the last one
    /// starting at or before it).
    pub fn sample_index_at(&self, dts: u64, timescale: u32) -> (r: Option<usize>)
        ensures
            ({
                let n = started(self.samples@, self.timescale, dts, timescale);
                match r {
                    Some(i) => n > 0 && i == n - 1,
                    None => n == 0,
                }
            }),
    {
        let here: u128 = if self.timescale == 0 {
            1
        } else {
            self.timescale as u128
        };
        let there: u128 = if timescale == 0 {
            1
        } else {
            timescale as u128
        };
        proof {
            lemma_times(dts, here as int);
        }
        let target: u128 = dts as u128 * here;
        let ghost all = self.samples@;
        assert(all.skip(0) =~= all);
        let mut i: usize = 0;
        while i < self.samples.len()
            invariant
                i <= self.samples@.len(),
                all == self.samples@,
                here == at_least_one(self.timescale),
                there == at_least_one(timescale),
                target == dts * here,
                started(all, self.timescale, dts, timescale) == i + started(
                    all.skip(i as int),
                    self.timescale,
                    dts,
                    timescale,
                ),
            decreases self.samples@.len() - i,
        {
            let s: Sample = self.samples[i];
            proof {
                assert(all.skip(i as int)[0] == s);
                assert(all.skip(i as int).drop_first() =~= all.skip(i + 1));
                lemma_times(s.dts, there as int);
            }
            if s.dts as u128 * there > target {
                return if i == 0 {
                    None
                } else {
                    Some(i - 1)
                };
            }
            i = i + 1;
        }
        if i == 0 {
            None
        } else {
            Some(i - 1)
        }
    }

    /// Tracks this one references with `reference_type`.
    pub fn references_of(&self, reference_type: &FourCc) -> (r: Vec<u32>)
        ensures
            r@ == ids_of(self@.references, *reference_type),
    {
        let mut out: Vec<u32> = Vec::new();
        let ghost all = self@.references;
        assert(all.take(0) =~= Seq::empty());
        for i in 0..self.references.len()
            invariant
                all == reference_lists(self.references@),
                out@ == ids_of(all.take(i as int), *reference_type),
        {
            proof {
                assert(all.take(i + 1).drop_last() =~= all.take(i as int));
                assert(all.take(i + 1).last() == all[i as int]);
            }
            if fourcc_eq(&self.references[i].0, reference_type) {
                let mut more: Vec<u32> = copy_vec(&self.references[i].1);
                out.append(&mut more);
            }
        }
        assert(all.take(all.len() as int) =~= all);
        out
    }

    /// §7.2.1: decode the matrix into rotation / mirror when it is one
    /// of the permitted combinations; `None` for any other matrix.
    pub fn orientation(&self) -> (r: Option<TrackOrientation>)
        ensures
            match r {
                Some(o) => orients(self.matrix, o),
                None => forall|o: TrackOrientation| !orients(self.matrix, o),
            },
    {
        let m: [i32; 9] = self.matrix;
        if m[8] != 0x4000_0000 {
            return None;
        }
        // Rotation matrices (a b; c d) for 0/90/180/270 anti-clockwise
        // in the ISOBMFF (x, y) → (x·a + y·c, x·b + y·d) convention, and
        // their horizontally mirrored variants.
        let one: i32 = 0x1_0000;
        let (a, b, c, d) = (m[0], m[1], m[3], m[4]);
        if b == 0 && c == 0 {
            if a == one && d == one {
                return Some(TrackOrientation { rotation: 0, mirror: false });
            }
            if a == -one && d == -one {
                return Some(TrackOrientation { rotation: 2, mirror: false });
            }
            if a == -one && d == one {
                return Some(TrackOrientation { rotation: 0, mirror: true });
            }
            if a == one && d == -one {
                return Some(TrackOrientation { rotation: 2, mirror: true });
            }
        }
        if a == 0 && d == 0 {
            if b == -one && c == one {
                return Some(TrackOrientation { rotation: 1, mirror: false });
            }
            if b == one && c == -one {
                return Some(TrackOrientation { rotation: 3, mirror: false });
            }
            if b == one && c == one {
                return Some(TrackOrientation { rotation: 1, mirror: true });
            }
            if b == -one && c == -one {
                return Some(TrackOrientation { rotation: 3, mirror: true });
            }
        }
        None
    }

    /// Total duration in the media timescale from the sample table.
    pub fn sample_duration_total(&self) -> (r: u64)
        ensures
            r == duration_sum(self.samples@),
    {
        let mut sum: u64 = 0;
        let ghost all = self.samples@;
        assert(all.take(0) =~= Seq::empty());
        for i in 0..self.samples.len()
            invariant
                all == self.samples@,
                sum == duration_sum(all.take(i as int)),
        {
            proof {
                assert(all.take(i + 1).drop_last() =~= all.take(i as int));
            }
            sum = sum.saturating_add(self.samples[i].duration as u64);
        }
        assert(all.take(all.len() as int) =~= all);
        sum
    }
}

proof fn lemma_times(a: u64, t: int)
    requires
        0 <= t <= u32::MAX,
    ensures
        0 <= a * t <= u64::MAX * u32::MAX,
{
    assert(0 <= a * t <= u64::MAX * u32::MAX) by (nonlinear_arith)
        requires
            0 <= a <= u64::MAX,
            0 <= t <= u32::MAX,
    ;
}

/// A track has at most one orientation.
#[verifier::rlimit(50)]
pub proof fn law_one_orientation(m: [i32; 9], a: TrackOrientation, b: TrackOrientation)
    requires
        orients(m, a),
        orients(m, b),
    ensures
        a == b,
{
}

/// The `moov` box.
#[derive(Debug, PartialEq, Eq)]
pub struct Movie {
    /// `mvhd` timescale.
    pub timescale: u32,
    /// `mvhd` duration.
    pub duration: u64,
    /// The tracks, in file order.
    pub tracks: Vec<Track>,
    /// Top-level `prft` boxes, in file order.
    pub producer_reference_times: Vec<ProducerReferenceTime>,
    /// Top-level `ssix` boxes, in file order.
    pub subsegment_indexes: Vec<SubsegmentIndex>,
}

/// Model of [`Movie`].
#[verifier::ext_equal]
pub struct MovieModel {
    /// `mvhd` timescale.
    pub timescale: u32,
    /// `mvhd` duration.
    pub duration: u64,
    /// The tracks, in file order.
    pub tracks: Seq<TrackModel>,
    /// Top-level `prft` boxes, in file order.
    pub producer_reference_times: Seq<ProducerReferenceTime>,
    /// Top-level `ssix` boxes, in file order.
    pub subsegment_indexes: Seq<SubsegmentIndexModel>,
}

impl View for Movie {
    type V = MovieModel;

    open spec fn view(&self) -> MovieModel {
        MovieModel {
            timescale: self.timescale,
            duration: self.duration,
            tracks: self.tracks.deep_view(),
            producer_reference_times: self.producer_reference_times@,
            subsegment_indexes: self.subsegment_indexes.deep_view(),
        }
    }
}

impl DeepView for Movie {
    type V = MovieModel;

    open spec fn deep_view(&self) -> MovieModel {
        self@
    }
}

impl Clone for Movie {
    fn clone(&self) -> (r: Self)
        ensures
            r@ == self@,
    {
        Movie {
            timescale: self.timescale,
            duration: self.duration,
            tracks: clone_vec(&self.tracks),
            producer_reference_times: copy_vec(&self.producer_reference_times),
            subsegment_indexes: clone_vec(&self.subsegment_indexes),
        }
    }
}

/// The first track with an id.
pub open spec fn track_of(tracks: Seq<TrackModel>, id: u32) -> Option<TrackModel>
    decreases tracks.len(),
{
    if tracks.len() == 0 {
        None
    } else if tracks[0].track_id == id {
        Some(tracks[0])
    } else {
        track_of(tracks.drop_first(), id)
    }
}

/// The models of a list of tracks.
pub open spec fn track_views(v: Seq<&Track>) -> Seq<TrackModel> {
    Seq::new(v.len(), |i: int| v[i]@)
}

/// Whether a track is an auxiliary of another.
pub open spec fn auxiliary_to(t: TrackModel, track_id: u32) -> bool {
    t.track_id != track_id && ids_of(t.references, tags::AUXL).contains(track_id)
}

fn list_has(ids: &Vec<u32>, id: u32) -> (r: bool)
    ensures
        r == ids@.contains(id),
{
    for i in 0..ids.len()
        invariant
            forall|k: int| 0 <= k < i ==> ids@[k] != id,
    {
        if ids[i] == id {
            return true;
        }
    }
    false
}

/// The first alpha auxiliary of a list of auxiliary tracks.
pub open spec fn alpha_of(tracks: Seq<TrackModel>, track_id: u32) -> Option<TrackModel>
    decreases tracks.len(),
{
    if tracks.len() == 0 {
        None
    } else if auxiliary_to(tracks[0], track_id) && tracks[0].auxiliary() == Some(AuxKind::Alpha) {
        Some(tracks[0])
    } else {
        alpha_of(tracks.drop_first(), track_id)
    }
}

impl Movie {
    /// Tracks with a visual handler.
    pub fn visual_tracks(&self) -> (r: Vec<&Track>)
        ensures
            track_views(r@) == self@.tracks.filter(|t: TrackModel| t.visual()),
    {
        let ghost keep = |t: TrackModel| t.visual();
        let ghost all = self@.tracks;
        let mut out: Vec<&Track> = Vec::new();
        proof {
            reveal(Seq::filter);
            assert(all.take(0) =~= Seq::empty());
            assert(track_views(out@) =~= all.take(0).filter(keep));
        }
        for i in 0..self.tracks.len()
            invariant
                all == self.tracks.deep_view(),
                keep == (|t: TrackModel| t.visual()),
                track_views(out@) == all.take(i as int).filter(keep),
        {
            let t: &Track = &self.tracks[i];
            let ghost before = track_views(out@);
            proof {
                reveal(Seq::filter);
                assert(all.take(i + 1).drop_last() =~= all.take(i as int));
                assert(all.take(i + 1).last() == t@);
            }
            if t.is_visual() {
                out.push(t);
                proof {
                    assert(track_views(out@) =~= before.push(t@));
                }
            }
        }
        assert(all.take(all.len() as int) =~= all);
        out
    }

    /// Look up a track by id.
    pub fn track(&self, id: u32) -> (r: Option<&Track>)
        ensures
            match r {
                Some(t) => track_of(self@.tracks, id) == Some(t@),
                None => track_of(self@.tracks, id) is None,
            },
    {
        let ghost all = self@.tracks;
        assert(all.skip(0) =~= all);
        for i in 0..self.tracks.len()
            invariant
                all == self.tracks.deep_view(),
                track_of(self@.tracks, id) == track_of(all.skip(i as int), id),
        {
            assert(all.skip(i as int)[0] == self.tracks@[i as int]@);
            assert(all.skip(i as int).drop_first() =~= all.skip(i + 1));
            if self.tracks[i].track_id == id {
                return Some(&self.tracks[i]);
            }
        }
        None
    }

    /// The auxiliary tracks of `track_id` (HEIF §7.5.3.1: linked by an
    /// `auxl` track reference from the auxiliary track), in file order.
    pub fn auxiliary_tracks_of(&self, track_id: u32) -> (r: Vec<&Track>)
        ensures
            track_views(r@) == self@.tracks.filter(|t: TrackModel| auxiliary_to(t, track_id)),
    {
        let ghost keep = |t: TrackModel| auxiliary_to(t, track_id);
        let ghost all = self@.tracks;
        let mut out: Vec<&Track> = Vec::new();
        proof {
            reveal(Seq::filter);
            assert(all.take(0) =~= Seq::empty());
            assert(track_views(out@) =~= all.take(0).filter(keep));
        }
        for i in 0..self.tracks.len()
            invariant
                all == self.tracks.deep_view(),
                keep == (|t: TrackModel| auxiliary_to(t, track_id)),
                track_views(out@) == all.take(i as int).filter(keep),
        {
            let t: &Track = &self.tracks[i];
            let ghost before = track_views(out@);
            proof {
                reveal(Seq::filter);
                assert(all.take(i + 1).drop_last() =~= all.take(i as int));
                assert(all.take(i + 1).last() == t@);
            }
            if t.track_id != track_id && list_has(&t.references_of(&tags::AUXL), track_id) {
                out.push(t);
                proof {
                    assert(track_views(out@) =~= before.push(t@));
                }
            }
        }
        assert(all.take(all.len() as int) =~= all);
        out
    }

    /// The alpha auxiliary track of `track_id`, when one exists.
    pub fn alpha_track_of(&self, track_id: u32) -> (r: Option<&Track>)
        ensures
            match r {
                Some(t) => alpha_of(self@.tracks, track_id) == Some(t@),
                None => alpha_of(self@.tracks, track_id) is None,
            },
    {
        let ghost all = self@.tracks;
        assert(all.skip(0) =~= all);
        for i in 0..self.tracks.len()
            invariant
                all == self.tracks.deep_view(),
                alpha_of(self@.tracks, track_id) == alpha_of(all.skip(i as int), track_id),
        {
            let t: &Track = &self.tracks[i];
            assert(all.skip(i as int)[0] == t@);
            assert(all.skip(i as int).drop_first() =~= all.skip(i + 1));
            if t.track_id != track_id && list_has(&t.references_of(&tags::AUXL), track_id) {
                let alpha: bool = match t.aux_kind() {
                    Some(k) => matches!(k, AuxKind::Alpha),
                    None => false,
                };
                if alpha {
                    return Some(t);
                }
            }
        }
        None
    }
}

/// The bytes of a sample of a file.
pub open spec fn sample_of(data: Seq<u8>, s: Sample) -> Outcome<Seq<u8>> {
    if s.offset + s.size > data.len() {
        Err(ErrorKind::Invalid)
    } else {
        Ok(data.subrange(s.offset as int, s.offset + s.size))
    }
}

/// Bytes of a sample.
pub fn sample_bytes<'a>(file: &'a HeifFile, s: &Sample) -> (r: Result<&'a [u8]>)
    ensures
        match r {
            Ok(b) => sample_of(file@.data, *s) == Ok::<Seq<u8>, ErrorKind>(b@),
            Err(e) => sample_of(file@.data, *s) == Err::<Seq<u8>, ErrorKind>(e.kind()),
        },
{
    let b: &[u8] = file.bytes();
    assert(b.len() == b@.len());
    let len: u64 = b.len() as u64;
    if s.size as u64 > len || s.offset > len - s.size as u64 {
        return Err(HeifError::invalid("sample outside the file"));
    }
    let start: usize = s.offset as usize;
    Ok(span(b, start, start + s.size as usize))
}

/// Diagnostics helper: the entry type of a track's first sample entry.
pub fn entry_type_str(t: &Track) -> (r: String)
    ensures
        r@ == (if t@.sample_entries.len() > 0 {
            fourcc_text(t@.sample_entries[0].entry_type)
        } else {
            Seq::empty()
        }),
{
    match t.primary_entry() {
        Some(e) => fourcc_str(&e.entry_type),
        None => String::new(),
    }
}

} // verus!
