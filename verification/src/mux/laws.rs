//! Laws of writing an image sequence.
use crate::error::ErrorKind;
use crate::mux::{ticks, MuxCodec, MuxModel, MuxPlanModel};
use crate::props::PropertyModel;
use vstd::prelude::*;

verus! {

/// A duration is written in ticks as it is; one tick where it is not known or not
/// positive.
pub proof fn law_ticks(d: Option<i64>)
    ensures
        d matches Some(v) ==> (1 <= v <= u32::MAX ==> ticks(d) == v) && (v < 1 ==> ticks(d) == 1),
        d is None ==> ticks(d) == 1,
{
}

/// A sequence that is written has the samples that were taken in, in order, and the size of the
/// stream; its entry is `hvc1` or `av01`, with its own configuration, HEVC with prefixes
/// of four bytes. The first sample is its cover image exactly when it is a sync sample.
pub proof fn law_written_sequence(m: MuxModel)
    requires
        m.codec != MuxCodec::Still,
    ensures
        m.finished() matches Ok(p) ==> (p matches MuxPlanModel::Sequence(q) && m.size matches Some(s) && {
            &&& q.samples == m.samples
            &&& s.0 <= 0xffff ==> q.width == s.0
            &&& s.1 <= 0xffff ==> q.height == s.1
            &&& m.codec == MuxCodec::Hevc ==> q.entry_type@ == seq![0x68u8, 0x76, 0x63, 0x31]
                && m.hvcc is Some && (q.config matches PropertyModel::HvcC(c) && c.length_size == 4
                && c.arrays == m.hvcc->0.arrays && c.chroma_format_idc
                == m.hvcc->0.chroma_format_idc)
            &&& m.codec == MuxCodec::Av1 ==> q.entry_type@ == seq![0x61u8, 0x76, 0x30, 0x31]
                && m.av1c is Some && q.config == PropertyModel::Av1C(m.av1c->0)
            &&& q.cover is Some <==> m.samples.len() > 0 && m.samples[0].is_sync
            &&& q.cover matches Some(c) ==> c.data == m.samples[0].data && c.item_type
                == q.entry_type && c.props[0] == (q.config, true) && (
            c.props[1].0 matches PropertyModel::Ispe(i) && i.width == s.0 && i.height == s.1)
        }),
{
    assert(crate::meta::ITEM_TYPE_HVC1@ =~= seq![0x68u8, 0x76, 0x63, 0x31]);
    assert(crate::meta::ITEM_TYPE_AV01@ =~= seq![0x61u8, 0x76, 0x30, 0x31]);
}

/// A still stream is written as the file that came.
pub proof fn law_written_still(m: MuxModel)
    requires
        m.codec == MuxCodec::Still,
    ensures
        m.finished() == (match m.still {
            Some(b) => Ok(MuxPlanModel::Still(b)),
            None => Err(ErrorKind::Invalid),
        }),
{
}

} // verus!
