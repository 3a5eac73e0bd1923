//! Reading back serialized properties.
use crate::av1c::law_av1_config_round_trip;
use crate::avcc::law_avc_config_round_trip;
use crate::boxes::write::{box_bytes, full_body, law_box_round_trip, law_full_box_round_trip, law_uuid_box_round_trip};
use crate::boxes::{
    cstr_at, cstr_end, first_zero, fourcc_at, full_box, header_at, lemma_plain, no_nul, no_zero, replaced_utf8,
    FourCc,
};
use crate::bytes::{
    be32, enc16, enc32, enc64, lemma_assoc, lemma_read16, lemma_read32, lemma_read64, signed32, unsigned32,
};
use crate::error::ErrorKind;
use crate::hvcc::law_hevc_config_round_trip;
use crate::lhvc::law_lhevc_config_round_trip;
use crate::lhvc::round_trip::law_operating_points_round_trip;
use crate::meta::parse::raw_property;
use crate::meta::RawPropertyModel;
use crate::props::parse::{
    a1lx_of, a1op_of, altt_of, amve_of, auxc_of, cclv_head, cclv_len, cclv_of, clap_of, clli_of,
    colr_of, coord, flag, imir_of, irot_of, iscl_of, ispe_of, lsel_of, mdcv_of, oinf_of, pasp_of,
    pixi_of, rloc_of, rref_of, time_of, tols_of, udes_of, value_at, value_len, version0,
};
use crate::props::write::{
    a1lx_bytes, altt_bytes, auxc_bytes, cclv_bytes, cclv_flags, clap_bytes, codes_bytes, colr_bytes, iscl_bytes,
    kept_or, mdcv_bytes, primaries_bytes, property_body, property_bytes, text_bytes, udes_bytes, value_bytes,
};
use crate::props::{
    kind_of, property_of, A1lx, AlttModel, AuxCModel, Cclv, Clap, ColrModel, Iscl, Mdcv, PropertyKind, PropertyModel,
    UdesModel,
};
use crate::tags;
use vstd::prelude::*;
use vstd::utf8::{decode_utf8, encode_scalar, encode_utf8, valid_utf8};

verus! {

impl PropertyModel {
    /// Whether the property can be written without loss: every field fits its
    /// bits, every list its count, texts hold no NUL, and bytes kept from
    /// reading are those of the fields.
    pub open spec fn fits(self) -> bool {
        match self {
            PropertyModel::Pixi(v) => v.bits_per_channel.len() < 0x100,
            PropertyModel::Colr(c) => c matches ColrModel::Other { colour_type, .. } ==> colour_type
                != tags::NCLX && colour_type != tags::RICC && colour_type != tags::PROF,
            PropertyModel::Irot(v) => v.angle < 4,
            PropertyModel::Imir(v) => v.axis < 2,
            PropertyModel::AuxC(a) => no_nul(a.aux_type),
            PropertyModel::HvcC(c) => if c.raw.len() > 0 {
                crate::hvcc::hevc_config_of(c.raw) == Ok::<crate::hvcc::HevcModel, ErrorKind>(c)
            } else {
                c.fits()
            },
            PropertyModel::Av1C(c) => if c.raw.len() > 0 {
                crate::av1c::av1_config_of(c.raw) == Ok::<crate::av1c::Av1Model, ErrorKind>(c)
            } else {
                c.fits()
            },
            PropertyModel::LhvC(c) => if c.raw.len() > 0 {
                crate::lhvc::lhevc_config_of(c.raw) == Ok::<crate::lhvc::LhevcModel, ErrorKind>(c)
            } else {
                c.fits()
            },
            PropertyModel::AvcC(c) => if c.raw.len() > 0 {
                crate::avcc::avc_config_of(c.raw) == Ok::<crate::avcc::AvcModel, ErrorKind>(c)
            } else {
                c.fits()
            },
            PropertyModel::Oinf(o) => if o.raw.len() > 0 {
                crate::lhvc::operating_points_of(o.raw) == Ok::<
                    crate::lhvc::OperatingPointsModel,
                    ErrorKind,
                >(o)
            } else {
                o.fits()
            },
            PropertyModel::A1lx(a) => a.large_size || (a.layer_size[0] < 0x1_0000 && a.layer_size[1]
                < 0x1_0000 && a.layer_size[2] < 0x1_0000),
            PropertyModel::Rref(r) => r.reference_types.len() < 0x100,
            PropertyModel::Udes(u) => no_nul(u.lang) && no_nul(u.name) && no_nul(u.description)
                && no_nul(u.tags),
            PropertyModel::Altt(a) => no_nul(a.alt_text) && no_nul(a.alt_lang),
            PropertyModel::Unknown(r) => kind_of(r.box_type) is Unknown && (r.box_type == tags::UUID)
                == (r.user_type is Some),
            _ => true,
        }
    }

    /// The property as it is read back: with the bytes of its record.
    pub open spec fn stored(self) -> PropertyModel {
        match self {
            PropertyModel::HvcC(c) => PropertyModel::HvcC(
                crate::hvcc::HevcModel { raw: kept_or(c.raw, c.bytes()), ..c },
            ),
            PropertyModel::Av1C(c) => PropertyModel::Av1C(
                crate::av1c::Av1Model { raw: kept_or(c.raw, c.bytes()), ..c },
            ),
            PropertyModel::LhvC(c) => PropertyModel::LhvC(
                crate::lhvc::LhevcModel { raw: kept_or(c.raw, c.bytes()), ..c },
            ),
            PropertyModel::AvcC(c) => PropertyModel::AvcC(
                crate::avcc::AvcModel { raw: kept_or(c.raw, c.bytes()), ..c },
            ),
            PropertyModel::Oinf(o) => PropertyModel::Oinf(
                crate::lhvc::OperatingPointsModel { raw: kept_or(o.raw, o.bytes()), ..o },
            ),
            PropertyModel::Unknown(r) => PropertyModel::Unknown(
                RawPropertyModel { box_size: property_bytes(self).len() as usize, ..r },
            ),
            _ => self,
        }
    }
}

proof fn lemma_signed(v: i32)
    ensures
        signed32(unsigned32(v)) == v,
{
}

/// No byte of a text without NUL is zero.
proof fn lemma_no_zero(s: Seq<char>)
    requires
        no_nul(s),
    ensures
        forall|i: int| 0 <= i < encode_utf8(s).len() ==> #[trigger] encode_utf8(s)[i] != 0,
    decreases s.len(),
{
    if s.len() > 0 {
        let c = s[0] as u32;
        let rest = s.drop_first();
        assert forall|i: int| 0 <= i < rest.len() implies (#[trigger] rest[i]) as u32 != 0 by {
            assert(rest[i] == s[i + 1]);
        }
        lemma_no_zero(rest);
        assert(s[0] as u32 != 0);
        lemma_scalar_bytes(c);
        let e = encode_scalar(c);
        assert forall|i: int| 0 <= i < encode_utf8(s).len() implies #[trigger] encode_utf8(s)[i]
            != 0 by {
            if i < e.len() {
                assert(encode_utf8(s)[i] == e[i]);
            } else {
                assert(encode_utf8(s)[i] == encode_utf8(rest)[i - e.len()]);
            }
        }
    }
}

proof fn lemma_scalar_bytes(c: u32)
    requires
        c != 0,
    ensures
        forall|i: int| 0 <= i < encode_scalar(c).len() ==> #[trigger] encode_scalar(c)[i] != 0,
{
    assert(c <= 0x7f && c != 0 ==> (c & 0x7F) as u8 != 0) by (bit_vector);
    assert(0xC0u8 | ((c >> 6) & 0x1F) as u8 != 0) by (bit_vector);
    assert(0xE0u8 | ((c >> 12) & 0x0F) as u8 != 0) by (bit_vector);
    assert(0xF0u8 | ((c >> 18) & 0x7) as u8 != 0) by (bit_vector);
    assert(0x80u8 | (c & 0x3F) as u8 != 0) by (bit_vector);
    assert(0x80u8 | ((c >> 6) & 0x3F) as u8 != 0) by (bit_vector);
    assert(0x80u8 | ((c >> 12) & 0x3F) as u8 != 0) by (bit_vector);
}

proof fn lemma_zero_found(s: Seq<u8>, p: int, q: int)
    requires
        0 <= p <= q < s.len(),
        s[q] == 0,
        forall|i: int| p <= i < q ==> #[trigger] s[i] != 0,
    ensures
        first_zero(s, p) == q,
    decreases q - p,
{
    if p < q {
        lemma_zero_found(s, p + 1, q);
    }
}

/// A text whose bytes hold no zero holds no NUL.
proof fn lemma_zero_of_nul(s: Seq<char>)
    requires
        !no_nul(s),
    ensures
        exists|i: int| 0 <= i < encode_utf8(s).len() && #[trigger] encode_utf8(s)[i] == 0,
    decreases s.len(),
{
    if s.len() > 0 {
        let c = s[0] as u32;
        let rest = s.drop_first();
        let e = encode_scalar(c);
        if c == 0 {
            assert((0u32 & 0x7F) as u8 == 0) by (bit_vector);
            assert(e =~= seq![0u8]);
            assert(encode_utf8(s)[0] == 0);
        } else {
            let k = choose|k: int| 0 <= k < s.len() && (#[trigger] s[k]) as u32 == 0;
            assert(rest[k - 1] as u32 == 0);
            lemma_zero_of_nul(rest);
            let j = choose|j: int| 0 <= j < encode_utf8(rest).len() && #[trigger] encode_utf8(
                rest,
            )[j] == 0;
            assert(encode_utf8(s)[e.len() + j] == 0);
        }
    }
}

/// A text that was read up to a zero byte holds no NUL.
proof fn lemma_read_text(s: Seq<u8>, p: int)
    requires
        0 <= p <= s.len(),
    ensures
        no_nul(cstr_at(s, p)),
{
    let q = first_zero(s, p);
    let b = s.subrange(p, q);
    lemma_up_to_zero(s, p);
    assert(no_zero(b));
    if valid_utf8(b) {
        vstd::utf8::decode_utf8_encode_utf8(b);
        if !no_nul(decode_utf8(b)) {
            lemma_zero_of_nul(decode_utf8(b));
        }
    } else {
        lemma_plain(replaced_utf8(b));
    }
}

proof fn lemma_up_to_zero(s: Seq<u8>, p: int)
    requires
        0 <= p <= s.len(),
    ensures
        p <= first_zero(s, p) <= s.len(),
        forall|i: int| p <= i < first_zero(s, p) ==> #[trigger] s[i] != 0,
    decreases s.len() - p,
{
    if p < s.len() && s[p] != 0 {
        lemma_up_to_zero(s, p + 1);
    }
}

/// Reading a terminated text back gives the text.
proof fn lemma_text(a: Seq<u8>, s: Seq<char>, t: Seq<u8>)
    requires
        no_nul(s),
    ensures
        cstr_at(a + text_bytes(s) + t, a.len() as int) == s,
        cstr_end(a + text_bytes(s) + t, a.len() as int) == a.len() + text_bytes(s).len(),
{
    let x = a + text_bytes(s) + t;
    let e = encode_utf8(s);
    let p = a.len() as int;
    let q = p + e.len();
    lemma_no_zero(s);
    assert(x[q] == 0);
    assert forall|i: int| p <= i < q implies #[trigger] x[i] != 0 by {
        assert(x[i] == e[i - p]);
    }
    lemma_zero_found(x, p, q);
    assert(x.subrange(p, q) =~= e);
    vstd::utf8::encode_utf8_valid_utf8(s);
    vstd::utf8::encode_utf8_decode_utf8(s);
}

proof fn lemma_clap(c: Clap)
    ensures
        clap_of(clap_bytes(c)) == Ok::<Clap, ErrorKind>(c),
{
    reveal(clap_of);
    let x = clap_bytes(c);
    assert(x.subrange(0, 4) =~= enc32(c.width_n));
    assert(x.subrange(4, 8) =~= enc32(c.width_d));
    assert(x.subrange(8, 12) =~= enc32(c.height_n));
    assert(x.subrange(12, 16) =~= enc32(c.height_d));
    assert(x.subrange(16, 20) =~= enc32(unsigned32(c.horiz_off_n)));
    assert(x.subrange(20, 24) =~= enc32(c.horiz_off_d));
    assert(x.subrange(24, 28) =~= enc32(unsigned32(c.vert_off_n)));
    assert(x.subrange(28, 32) =~= enc32(c.vert_off_d));
    lemma_read32(x, 0, c.width_n);
    lemma_read32(x, 4, c.width_d);
    lemma_read32(x, 8, c.height_n);
    lemma_read32(x, 12, c.height_d);
    lemma_read32(x, 16, unsigned32(c.horiz_off_n));
    lemma_read32(x, 20, c.horiz_off_d);
    lemma_read32(x, 24, unsigned32(c.vert_off_n));
    lemma_read32(x, 28, c.vert_off_d);
    lemma_signed(c.horiz_off_n);
    lemma_signed(c.vert_off_n);
}

proof fn lemma_pair32(a: u32, b: u32)
    ensures
        ({
            let x = Seq::<u8>::empty() + enc32(a) + enc32(b);
            x.len() == 8 && be32(x, 0) == a && be32(x, 4) == b
        }),
{
    let x = Seq::<u8>::empty() + enc32(a) + enc32(b);
    assert(x.subrange(0, 4) =~= enc32(a));
    assert(x.subrange(4, 8) =~= enc32(b));
    lemma_read32(x, 0, a);
    lemma_read32(x, 4, b);
}

proof fn lemma_iscl(v: Iscl)
    ensures
        iscl_of(full_body(0, 0, iscl_bytes(v))) == Ok::<Iscl, ErrorKind>(v),
{
    reveal(iscl_of);
    let x = iscl_bytes(v);
    law_full_box_round_trip(0, 0, x);
    assert(x.subrange(0, 2) =~= enc16(v.width_num));
    assert(x.subrange(2, 4) =~= enc16(v.width_den));
    assert(x.subrange(4, 6) =~= enc16(v.height_num));
    assert(x.subrange(6, 8) =~= enc16(v.height_den));
    lemma_read16(x, 0, v.width_num);
    lemma_read16(x, 2, v.width_den);
    lemma_read16(x, 4, v.height_num);
    lemma_read16(x, 6, v.height_den);
}

proof fn lemma_mdcv(m: Mdcv)
    ensures
        mdcv_of(mdcv_bytes(m)) == Ok::<Mdcv, ErrorKind>(m),
{
    reveal(mdcv_of);
    let x = mdcv_bytes(m);
    let d = m.display_primaries;
    assert(x.subrange(0, 2) =~= enc16(d[0].0));
    assert(x.subrange(2, 4) =~= enc16(d[0].1));
    assert(x.subrange(4, 6) =~= enc16(d[1].0));
    assert(x.subrange(6, 8) =~= enc16(d[1].1));
    assert(x.subrange(8, 10) =~= enc16(d[2].0));
    assert(x.subrange(10, 12) =~= enc16(d[2].1));
    assert(x.subrange(12, 14) =~= enc16(m.white_point.0));
    assert(x.subrange(14, 16) =~= enc16(m.white_point.1));
    assert(x.subrange(16, 20) =~= enc32(m.max_luminance));
    assert(x.subrange(20, 24) =~= enc32(m.min_luminance));
    lemma_read16(x, 0, d[0].0);
    lemma_read16(x, 2, d[0].1);
    lemma_read16(x, 4, d[1].0);
    lemma_read16(x, 6, d[1].1);
    lemma_read16(x, 8, d[2].0);
    lemma_read16(x, 10, d[2].1);
    lemma_read16(x, 12, m.white_point.0);
    lemma_read16(x, 14, m.white_point.1);
    lemma_read32(x, 16, m.max_luminance);
    lemma_read32(x, 20, m.min_luminance);
    assert(mdcv_of(x)->Ok_0.display_primaries =~= d);
}

proof fn lemma_cclv_flags(c: Cclv)
    ensures
        flag(cclv_flags(c), 0x80) == c.cancel,
        flag(cclv_flags(c), 0x40) == c.persistence,
        flag(cclv_flags(c), 0x20) == (c.primaries is Some),
        flag(cclv_flags(c), 0x10) == (c.min_luminance is Some),
        flag(cclv_flags(c), 0x08) == (c.max_luminance is Some),
        flag(cclv_flags(c), 0x04) == (c.avg_luminance is Some),
{
}

proof fn lemma_primaries(a: Seq<u8>, p: [(i32, i32); 3], t: Seq<u8>)
    ensures
        ({
            let x = a + primaries_bytes(Some(p)) + t;
            let n = a.len() as int;
            [
                (coord(x, n), coord(x, n + 4)),
                (coord(x, n + 8), coord(x, n + 12)),
                (coord(x, n + 16), coord(x, n + 20)),
            ] == p
        }),
{
    let x = a + primaries_bytes(Some(p)) + t;
    let n = a.len() as int;
    assert(x.subrange(n, n + 4) =~= enc32(unsigned32(p[0].0)));
    assert(x.subrange(n + 4, n + 8) =~= enc32(unsigned32(p[0].1)));
    assert(x.subrange(n + 8, n + 12) =~= enc32(unsigned32(p[1].0)));
    assert(x.subrange(n + 12, n + 16) =~= enc32(unsigned32(p[1].1)));
    assert(x.subrange(n + 16, n + 20) =~= enc32(unsigned32(p[2].0)));
    assert(x.subrange(n + 20, n + 24) =~= enc32(unsigned32(p[2].1)));
    lemma_read32(x, n, unsigned32(p[0].0));
    lemma_read32(x, n + 4, unsigned32(p[0].1));
    lemma_read32(x, n + 8, unsigned32(p[1].0));
    lemma_read32(x, n + 12, unsigned32(p[1].1));
    lemma_read32(x, n + 16, unsigned32(p[2].0));
    lemma_read32(x, n + 20, unsigned32(p[2].1));
    lemma_signed(p[0].0);
    lemma_signed(p[0].1);
    lemma_signed(p[1].0);
    lemma_signed(p[1].1);
    lemma_signed(p[2].0);
    lemma_signed(p[2].1);
    let got = [
        (coord(x, n), coord(x, n + 4)),
        (coord(x, n + 8), coord(x, n + 12)),
        (coord(x, n + 16), coord(x, n + 20)),
    ];
    assert(got =~= p);
}

proof fn lemma_value(a: Seq<u8>, v: Option<u32>, t: Seq<u8>)
    ensures
        value_bytes(v).len() == value_len(v is Some),
        value_at(a + value_bytes(v) + t, a.len() as int, v is Some) == v,
{
    if let Some(n) = v {
        let x = a + value_bytes(v) + t;
        assert(x.subrange(a.len() as int, a.len() as int + 4) =~= enc32(n));
        lemma_read32(x, a.len() as int, n);
    }
}

/// The parts of a serialized `cclv`, in order.
proof fn lemma_cclv_parts(h: Seq<u8>, pb: Seq<u8>, v1: Seq<u8>, v2: Seq<u8>, v3: Seq<u8>)
    ensures
        h + pb + v1 + v2 + v3 == h + pb + (v1 + v2 + v3),
        h + pb + v1 + v2 + v3 == h + pb + v1 + (v2 + v3),
        h + pb + v1 + v2 + v3 == h + pb + v1 + v2 + v3 + Seq::<u8>::empty(),
{
    lemma_assoc(h + pb, v1, v2);
    lemma_assoc(h + pb, v1 + v2, v3);
    lemma_assoc(h + pb + v1, v2, v3);
    assert(h + pb + v1 + v2 + v3 =~= h + pb + v1 + v2 + v3 + Seq::<u8>::empty());
}

proof fn lemma_cclv(c: Cclv)
    ensures
        cclv_of(cclv_bytes(c)) == Ok::<Cclv, ErrorKind>(c),
{
    let x = cclv_bytes(c);
    let f = cclv_flags(c);
    let h = Seq::<u8>::empty().push(f);
    let pb = primaries_bytes(c.primaries);
    let v1 = value_bytes(c.min_luminance);
    let v2 = value_bytes(c.max_luminance);
    let v3 = value_bytes(c.avg_luminance);
    let e = Seq::<u8>::empty();
    lemma_cclv_flags(c);
    lemma_cclv_parts(h, pb, v1, v2, v3);
    assert(pb.len() + 1 == cclv_head(f));
    if let Some(p) = c.primaries {
        lemma_primaries(h, p, v1 + v2 + v3);
    }
    lemma_value(h + pb, c.min_luminance, v2 + v3);
    lemma_value(h + pb + v1, c.max_luminance, v3);
    lemma_value(h + pb + v1 + v2, c.avg_luminance, e);
    assert(x[0] == f);
    lemma_cclv_read(x, c);
}

proof fn lemma_cclv_read(x: Seq<u8>, c: Cclv)
    requires
        x.len() > 0,
        x[0] == cclv_flags(c),
        cclv_len(x[0]) == x.len(),
        c.primaries matches Some(p) ==> [
            (coord(x, 1), coord(x, 5)),
            (coord(x, 9), coord(x, 13)),
            (coord(x, 17), coord(x, 21)),
        ] == p,
        ({
            let p1 = cclv_head(x[0]);
            let p2 = p1 + value_len(c.min_luminance is Some);
            let p3 = p2 + value_len(c.max_luminance is Some);
            &&& value_at(x, p1, c.min_luminance is Some) == c.min_luminance
            &&& value_at(x, p2, c.max_luminance is Some) == c.max_luminance
            &&& value_at(x, p3, c.avg_luminance is Some) == c.avg_luminance
        }),
    ensures
        cclv_of(x) == Ok::<Cclv, ErrorKind>(c),
{
    reveal(cclv_of);
    lemma_cclv_flags(c);
}

proof fn lemma_a1lx(a: A1lx)
    requires
        a.large_size || (a.layer_size[0] < 0x1_0000 && a.layer_size[1] < 0x1_0000
            && a.layer_size[2] < 0x1_0000),
    ensures
        a1lx_of(a1lx_bytes(a)) == Ok::<A1lx, ErrorKind>(a),
{
    reveal(a1lx_of);
    let x = a1lx_bytes(a);
    let z = a.layer_size;
    if a.large_size {
        assert(x[0] == 1);
        assert(x.subrange(1, 5) =~= enc32(z[0]));
        assert(x.subrange(5, 9) =~= enc32(z[1]));
        assert(x.subrange(9, 13) =~= enc32(z[2]));
        lemma_read32(x, 1, z[0]);
        lemma_read32(x, 5, z[1]);
        lemma_read32(x, 9, z[2]);
    } else {
        assert(x[0] == 0);
        assert(x.subrange(1, 3) =~= enc16(z[0] as u16));
        assert(x.subrange(3, 5) =~= enc16(z[1] as u16));
        assert(x.subrange(5, 7) =~= enc16(z[2] as u16));
        lemma_read16(x, 1, z[0] as u16);
        lemma_read16(x, 3, z[1] as u16);
        lemma_read16(x, 5, z[2] as u16);
    }
    assert(a1lx_of(x)->Ok_0.layer_size =~= z);
}

proof fn lemma_codes(a: Seq<u8>, codes: Seq<FourCc>)
    ensures
        codes_bytes(codes).len() == 4 * codes.len(),
        forall|i: int|
            0 <= i < codes.len() ==> #[trigger] fourcc_at(a + codes_bytes(codes), a.len() + 4 * i)
                == codes[i],
    decreases codes.len(),
{
    if codes.len() > 0 {
        let d = codes.drop_last();
        let x = a + codes_bytes(codes);
        lemma_codes(a, d);
        assert(codes.last()@.len() == 4);
        assert forall|i: int| 0 <= i < codes.len() implies #[trigger] fourcc_at(
            x,
            a.len() + 4 * i,
        ) == codes[i] by {
            if i < d.len() {
                assert(fourcc_at(a + codes_bytes(d), a.len() + 4 * i) == d[i]);
                assert(fourcc_at(x, a.len() + 4 * i) =~= fourcc_at(
                    a + codes_bytes(d),
                    a.len() + 4 * i,
                ));
            } else {
                assert(fourcc_at(x, a.len() + 4 * i) =~= codes.last());
            }
        }
    }
}

proof fn lemma_rref(codes: Seq<FourCc>)
    requires
        codes.len() < 0x100,
    ensures
        rref_of(
            full_body(
                0,
                0,
                Seq::<u8>::empty().push((codes.len() % 0x100) as u8) + codes_bytes(codes),
            ),
        ) == Ok::<crate::props::RrefModel, ErrorKind>(
            crate::props::RrefModel { reference_types: codes },
        ),
{
    reveal(rref_of);
    let h = Seq::<u8>::empty().push((codes.len() % 0x100) as u8);
    let x = h + codes_bytes(codes);
    law_full_box_round_trip(0, 0, x);
    lemma_codes(h, codes);
    assert(x[0] == codes.len());
    let got = rref_of(full_body(0, 0, x))->Ok_0.reference_types;
    assert(got.len() == codes.len());
    assert forall|i: int| 0 <= i < codes.len() implies got[i] == codes[i] by {
        assert(fourcc_at(x, h.len() + 4 * i) == codes[i]);
    }
    assert(got =~= codes);
}

proof fn lemma_auxc(a: AuxCModel)
    requires
        no_nul(a.aux_type),
    ensures
        auxc_of(full_body(0, 0, auxc_bytes(a))) == Ok::<AuxCModel, ErrorKind>(a),
{
    reveal(auxc_of);
    let x = auxc_bytes(a);
    law_full_box_round_trip(0, 0, x);
    lemma_text(Seq::empty(), a.aux_type, a.aux_subtype);
    assert(x.subrange(text_bytes(a.aux_type).len() as int, x.len() as int) =~= a.aux_subtype);
}

proof fn lemma_altt(a: AlttModel)
    requires
        no_nul(a.alt_text),
        no_nul(a.alt_lang),
    ensures
        altt_of(full_body(0, 0, altt_bytes(a))) == Ok::<AlttModel, ErrorKind>(a),
{
    reveal(altt_of);
    let e = Seq::<u8>::empty();
    let x = altt_bytes(a);
    let t1 = text_bytes(a.alt_text);
    let t2 = text_bytes(a.alt_lang);
    law_full_box_round_trip(0, 0, x);
    lemma_text(e, a.alt_text, t2);
    lemma_text(e + t1, a.alt_lang, e);
    assert(x =~= e + t1 + t2 + e);
}

proof fn lemma_udes(u: UdesModel)
    requires
        no_nul(u.lang),
        no_nul(u.name),
        no_nul(u.description),
        no_nul(u.tags),
    ensures
        udes_of(full_body(0, 0, udes_bytes(u))) == Ok::<UdesModel, ErrorKind>(u),
{
    reveal(udes_of);
    let e = Seq::<u8>::empty();
    let x = udes_bytes(u);
    let t1 = text_bytes(u.lang);
    let t2 = text_bytes(u.name);
    let t3 = text_bytes(u.description);
    let t4 = text_bytes(u.tags);
    law_full_box_round_trip(0, 0, x);
    lemma_text(e, u.lang, t2 + t3 + t4);
    lemma_text(e + t1, u.name, t3 + t4);
    lemma_text(e + t1 + t2, u.description, t4);
    lemma_text(e + t1 + t2 + t3, u.tags, e);
    assert(x =~= e + t1 + (t2 + t3 + t4));
    assert(x =~= e + t1 + t2 + (t3 + t4));
    assert(x =~= e + t1 + t2 + t3 + t4 + e);
}

proof fn lemma_colr(c: ColrModel)
    requires
        c matches ColrModel::Other { colour_type, .. } ==> colour_type != tags::NCLX && colour_type
            != tags::RICC && colour_type != tags::PROF,
    ensures
        colr_of(colr_bytes(c)) == Ok::<ColrModel, ErrorKind>(c),
{
    reveal(colr_of);
    let x = colr_bytes(c);
    assert(tags::NCLX@.len() == 4 && tags::RICC@.len() == 4 && tags::PROF@.len() == 4);
    assert(tags::NCLX[0] == 0x6e && tags::RICC[0] == 0x72 && tags::PROF[0] == 0x70);
    match c {
        ColrModel::Nclx { primaries, transfer, matrix, full_range } => {
            assert(fourcc_at(x, 0) =~= tags::NCLX);
            assert(x.subrange(4, 6) =~= enc16(primaries));
            assert(x.subrange(6, 8) =~= enc16(transfer));
            assert(x.subrange(8, 10) =~= enc16(matrix));
            lemma_read16(x, 4, primaries);
            lemma_read16(x, 6, transfer);
            lemma_read16(x, 8, matrix);
        },
        ColrModel::Icc { restricted, profile } => {
            assert(fourcc_at(x, 0) =~= if restricted {
                tags::RICC
            } else {
                tags::PROF
            });
            assert(x.subrange(4, x.len() as int) =~= profile);
        },
        ColrModel::Other { colour_type, payload } => {
            assert(colour_type@.len() == 4);
            assert(fourcc_at(x, 0) =~= colour_type);
            assert(x.subrange(4, x.len() as int) =~= payload);
        },
    }
}

/// A four-character code as a number.
spec fn code_number(t: FourCc) -> int {
    t[0] * 0x100_0000 + t[1] * 0x1_0000 + t[2] * 0x100 + t[3]
}

proof fn lemma_code_numbers()
    ensures
        code_number(tags::ISPE) == 0x6973_7065,
        code_number(tags::PIXI) == 0x7069_7869,
        code_number(tags::COLR) == 0x636f_6c72,
        code_number(tags::PASP) == 0x7061_7370,
        code_number(tags::CLAP) == 0x636c_6170,
        code_number(tags::IROT) == 0x6972_6f74,
        code_number(tags::IMIR) == 0x696d_6972,
        code_number(tags::ISCL) == 0x6973_636c,
        code_number(tags::AUXC) == 0x6175_7843,
        code_number(tags::HVCC) == 0x6876_6343,
        code_number(tags::AV1C) == 0x6176_3143,
        code_number(tags::LHVC) == 0x6c68_7643,
        code_number(tags::AVCC) == 0x6176_6343,
        code_number(tags::OINF) == 0x6f69_6e66,
        code_number(tags::TOLS) == 0x746f_6c73,
        code_number(tags::CLLI) == 0x636c_6c69,
        code_number(tags::MDCV) == 0x6d64_6376,
        code_number(tags::CCLV) == 0x6363_6c76,
        code_number(tags::AMVE) == 0x616d_7665,
        code_number(tags::RLOC) == 0x726c_6f63,
        code_number(tags::LSEL) == 0x6c73_656c,
        code_number(tags::A1OP) == 0x6131_6f70,
        code_number(tags::A1LX) == 0x6131_6c78,
        code_number(tags::RREF) == 0x7272_6566,
        code_number(tags::CRTT) == 0x6372_7474,
        code_number(tags::MDFT) == 0x6d64_6674,
        code_number(tags::UDES) == 0x7564_6573,
        code_number(tags::ALTT) == 0x616c_7474,
        code_number(tags::UUID) == 0x7575_6964,
{
}

/// The box type of a typed property names its type.
proof fn lemma_kind(p: PropertyModel)
    requires
        !(p is Unknown),
    ensures
        kind_of(p.box_type()) == p.kind(),
        p.box_type() != tags::UUID,
{
    lemma_code_numbers();
    reveal(kind_of);
}

proof fn lemma_read_ispe(v: crate::props::Ispe, raw: RawPropertyModel)
    requires
        kind_of(raw.box_type) == PropertyKind::Ispe,
        raw.body == property_body(PropertyModel::Ispe(v)),
    ensures
        property_of(raw) == Ok::<PropertyModel, ErrorKind>(PropertyModel::Ispe(v).stored()),
{
    reveal(property_of);
    reveal(ispe_of);
    let x = Seq::<u8>::empty() + enc32(v.width) + enc32(v.height);
    law_full_box_round_trip(0, 0, x);
    lemma_pair32(v.width, v.height);
}

proof fn lemma_read_pixi(v: crate::props::PixiModel, raw: RawPropertyModel)
    requires
        kind_of(raw.box_type) == PropertyKind::Pixi,
        raw.body == property_body(PropertyModel::Pixi(v)),
        v.bits_per_channel.len() < 0x100,
    ensures
        property_of(raw) == Ok::<PropertyModel, ErrorKind>(PropertyModel::Pixi(v).stored()),
{
    reveal(property_of);
    reveal(pixi_of);
    let n = v.bits_per_channel.len();
    let x = Seq::<u8>::empty().push((n % 0x100) as u8) + v.bits_per_channel;
    law_full_box_round_trip(0, 0, x);
    assert(x[0] == n);
    assert(x.subrange(1, 1 + n as int) =~= v.bits_per_channel);
}

proof fn lemma_read_pasp(v: crate::props::Pasp, raw: RawPropertyModel)
    requires
        kind_of(raw.box_type) == PropertyKind::Pasp,
        raw.body == property_body(PropertyModel::Pasp(v)),
    ensures
        property_of(raw) == Ok::<PropertyModel, ErrorKind>(PropertyModel::Pasp(v).stored()),
{
    reveal(property_of);
    reveal(pasp_of);
    lemma_pair32(v.h_spacing, v.v_spacing);
}

proof fn lemma_read_irot(v: crate::props::Irot, raw: RawPropertyModel)
    requires
        kind_of(raw.box_type) == PropertyKind::Irot,
        raw.body == property_body(PropertyModel::Irot(v)),
        v.angle < 4,
    ensures
        property_of(raw) == Ok::<PropertyModel, ErrorKind>(PropertyModel::Irot(v).stored()),
{
    reveal(property_of);
    reveal(irot_of);
    assert(raw.body[0] == v.angle);
}

proof fn lemma_read_imir(v: crate::props::Imir, raw: RawPropertyModel)
    requires
        kind_of(raw.box_type) == PropertyKind::Imir,
        raw.body == property_body(PropertyModel::Imir(v)),
        v.axis < 2,
    ensures
        property_of(raw) == Ok::<PropertyModel, ErrorKind>(PropertyModel::Imir(v).stored()),
{
    reveal(property_of);
    reveal(imir_of);
    assert(raw.body[0] == v.axis);
}

proof fn lemma_read_tols(v: u16, raw: RawPropertyModel)
    requires
        kind_of(raw.box_type) == PropertyKind::Tols,
        raw.body == property_body(PropertyModel::Tols(v)),
    ensures
        property_of(raw) == Ok::<PropertyModel, ErrorKind>(PropertyModel::Tols(v).stored()),
{
    reveal(property_of);
    reveal(tols_of);
    let x = Seq::<u8>::empty() + enc16(v);
    law_full_box_round_trip(0, 0, x);
    assert(x.subrange(0, 2) =~= enc16(v));
    lemma_read16(x, 0, v);
}

proof fn lemma_read_clli(v: crate::props::Clli, raw: RawPropertyModel)
    requires
        kind_of(raw.box_type) == PropertyKind::Clli,
        raw.body == property_body(PropertyModel::Clli(v)),
    ensures
        property_of(raw) == Ok::<PropertyModel, ErrorKind>(PropertyModel::Clli(v).stored()),
{
    reveal(property_of);
    reveal(clli_of);
    let b = raw.body;
    assert(b.subrange(0, 2) =~= enc16(v.max_content_light_level));
    assert(b.subrange(2, 4) =~= enc16(v.max_pic_average_light_level));
    lemma_read16(b, 0, v.max_content_light_level);
    lemma_read16(b, 2, v.max_pic_average_light_level);
}

proof fn lemma_read_amve(v: crate::props::Amve, raw: RawPropertyModel)
    requires
        kind_of(raw.box_type) == PropertyKind::Amve,
        raw.body == property_body(PropertyModel::Amve(v)),
    ensures
        property_of(raw) == Ok::<PropertyModel, ErrorKind>(PropertyModel::Amve(v).stored()),
{
    reveal(property_of);
    reveal(amve_of);
    let b = raw.body;
    assert(b.subrange(0, 4) =~= enc32(v.ambient_illuminance));
    assert(b.subrange(4, 6) =~= enc16(v.ambient_light_x));
    assert(b.subrange(6, 8) =~= enc16(v.ambient_light_y));
    lemma_read32(b, 0, v.ambient_illuminance);
    lemma_read16(b, 4, v.ambient_light_x);
    lemma_read16(b, 6, v.ambient_light_y);
}

proof fn lemma_read_rloc(v: crate::props::Rloc, raw: RawPropertyModel)
    requires
        kind_of(raw.box_type) == PropertyKind::Rloc,
        raw.body == property_body(PropertyModel::Rloc(v)),
    ensures
        property_of(raw) == Ok::<PropertyModel, ErrorKind>(PropertyModel::Rloc(v).stored()),
{
    reveal(property_of);
    reveal(rloc_of);
    let x = Seq::<u8>::empty() + enc32(v.horizontal_offset) + enc32(v.vertical_offset);
    law_full_box_round_trip(0, 0, x);
    lemma_pair32(v.horizontal_offset, v.vertical_offset);
}

proof fn lemma_read_lsel(v: crate::props::Lsel, raw: RawPropertyModel)
    requires
        kind_of(raw.box_type) == PropertyKind::Lsel,
        raw.body == property_body(PropertyModel::Lsel(v)),
    ensures
        property_of(raw) == Ok::<PropertyModel, ErrorKind>(PropertyModel::Lsel(v).stored()),
{
    reveal(property_of);
    reveal(lsel_of);
    let b = raw.body;
    assert(b.subrange(0, 2) =~= enc16(v.layer_id));
    lemma_read16(b, 0, v.layer_id);
}

proof fn lemma_read_a1op(v: crate::props::A1op, raw: RawPropertyModel)
    requires
        kind_of(raw.box_type) == PropertyKind::A1op,
        raw.body == property_body(PropertyModel::A1op(v)),
    ensures
        property_of(raw) == Ok::<PropertyModel, ErrorKind>(PropertyModel::A1op(v).stored()),
{
    reveal(property_of);
    reveal(a1op_of);
    assert(raw.body[0] == v.op_index);
}

proof fn lemma_read_hvcc(v: crate::hvcc::HevcModel, raw: RawPropertyModel)
    requires
        kind_of(raw.box_type) == PropertyKind::HvcC,
        raw.body == property_body(PropertyModel::HvcC(v)),
        PropertyModel::HvcC(v).fits(),
    ensures
        property_of(raw) == Ok::<PropertyModel, ErrorKind>(PropertyModel::HvcC(v).stored()),
{
    reveal(property_of);
    if v.raw.len() == 0 {
        law_hevc_config_round_trip(v);
    }
}

proof fn lemma_read_av1c(v: crate::av1c::Av1Model, raw: RawPropertyModel)
    requires
        kind_of(raw.box_type) == PropertyKind::Av1C,
        raw.body == property_body(PropertyModel::Av1C(v)),
        PropertyModel::Av1C(v).fits(),
    ensures
        property_of(raw) == Ok::<PropertyModel, ErrorKind>(PropertyModel::Av1C(v).stored()),
{
    reveal(property_of);
    if v.raw.len() == 0 {
        law_av1_config_round_trip(v);
    }
}

proof fn lemma_read_lhvc(v: crate::lhvc::LhevcModel, raw: RawPropertyModel)
    requires
        kind_of(raw.box_type) == PropertyKind::LhvC,
        raw.body == property_body(PropertyModel::LhvC(v)),
        PropertyModel::LhvC(v).fits(),
    ensures
        property_of(raw) == Ok::<PropertyModel, ErrorKind>(PropertyModel::LhvC(v).stored()),
{
    reveal(property_of);
    if v.raw.len() == 0 {
        law_lhevc_config_round_trip(v);
    }
}

proof fn lemma_read_avcc(v: crate::avcc::AvcModel, raw: RawPropertyModel)
    requires
        kind_of(raw.box_type) == PropertyKind::AvcC,
        raw.body == property_body(PropertyModel::AvcC(v)),
        PropertyModel::AvcC(v).fits(),
    ensures
        property_of(raw) == Ok::<PropertyModel, ErrorKind>(PropertyModel::AvcC(v).stored()),
{
    reveal(property_of);
    if v.raw.len() == 0 {
        law_avc_config_round_trip(v);
    }
}

proof fn lemma_read_oinf(v: crate::lhvc::OperatingPointsModel, raw: RawPropertyModel)
    requires
        kind_of(raw.box_type) == PropertyKind::Oinf,
        raw.body == property_body(PropertyModel::Oinf(v)),
        PropertyModel::Oinf(v).fits(),
    ensures
        property_of(raw) == Ok::<PropertyModel, ErrorKind>(PropertyModel::Oinf(v).stored()),
{
    reveal(property_of);
    reveal(oinf_of);
    law_full_box_round_trip(0, 0, kept_or(v.raw, v.bytes()));
    if v.raw.len() == 0 {
        law_operating_points_round_trip(v);
    }
}

proof fn lemma_read_colr(v: ColrModel, raw: RawPropertyModel)
    requires
        kind_of(raw.box_type) == PropertyKind::Colr,
        raw.body == property_body(PropertyModel::Colr(v)),
        PropertyModel::Colr(v).fits(),
    ensures
        property_of(raw) == Ok::<PropertyModel, ErrorKind>(PropertyModel::Colr(v).stored()),
{
    reveal(property_of);
    lemma_colr(v);
}

proof fn lemma_read_clap(v: Clap, raw: RawPropertyModel)
    requires
        kind_of(raw.box_type) == PropertyKind::Clap,
        raw.body == property_body(PropertyModel::Clap(v)),
    ensures
        property_of(raw) == Ok::<PropertyModel, ErrorKind>(PropertyModel::Clap(v).stored()),
{
    reveal(property_of);
    lemma_clap(v);
}

proof fn lemma_read_iscl(v: Iscl, raw: RawPropertyModel)
    requires
        kind_of(raw.box_type) == PropertyKind::Iscl,
        raw.body == property_body(PropertyModel::Iscl(v)),
    ensures
        property_of(raw) == Ok::<PropertyModel, ErrorKind>(PropertyModel::Iscl(v).stored()),
{
    reveal(property_of);
    lemma_iscl(v);
}

proof fn lemma_read_auxc(v: AuxCModel, raw: RawPropertyModel)
    requires
        kind_of(raw.box_type) == PropertyKind::AuxC,
        raw.body == property_body(PropertyModel::AuxC(v)),
        no_nul(v.aux_type),
    ensures
        property_of(raw) == Ok::<PropertyModel, ErrorKind>(PropertyModel::AuxC(v).stored()),
{
    reveal(property_of);
    lemma_auxc(v);
}

proof fn lemma_read_mdcv(v: Mdcv, raw: RawPropertyModel)
    requires
        kind_of(raw.box_type) == PropertyKind::Mdcv,
        raw.body == property_body(PropertyModel::Mdcv(v)),
    ensures
        property_of(raw) == Ok::<PropertyModel, ErrorKind>(PropertyModel::Mdcv(v).stored()),
{
    reveal(property_of);
    lemma_mdcv(v);
}

proof fn lemma_read_cclv(v: Cclv, raw: RawPropertyModel)
    requires
        kind_of(raw.box_type) == PropertyKind::Cclv,
        raw.body == property_body(PropertyModel::Cclv(v)),
    ensures
        property_of(raw) == Ok::<PropertyModel, ErrorKind>(PropertyModel::Cclv(v).stored()),
{
    reveal(property_of);
    lemma_cclv(v);
}

proof fn lemma_read_a1lx(v: A1lx, raw: RawPropertyModel)
    requires
        kind_of(raw.box_type) == PropertyKind::A1lx,
        raw.body == property_body(PropertyModel::A1lx(v)),
        PropertyModel::A1lx(v).fits(),
    ensures
        property_of(raw) == Ok::<PropertyModel, ErrorKind>(PropertyModel::A1lx(v).stored()),
{
    reveal(property_of);
    lemma_a1lx(v);
}

proof fn lemma_read_rref(v: crate::props::RrefModel, raw: RawPropertyModel)
    requires
        kind_of(raw.box_type) == PropertyKind::Rref,
        raw.body == property_body(PropertyModel::Rref(v)),
        v.reference_types.len() < 0x100,
    ensures
        property_of(raw) == Ok::<PropertyModel, ErrorKind>(PropertyModel::Rref(v).stored()),
{
    reveal(property_of);
    lemma_rref(v.reference_types);
}

proof fn lemma_read_crtt(v: crate::props::TimeInfo, raw: RawPropertyModel)
    requires
        kind_of(raw.box_type) == PropertyKind::Crtt,
        raw.body == property_body(PropertyModel::Crtt(v)),
    ensures
        property_of(raw) == Ok::<PropertyModel, ErrorKind>(PropertyModel::Crtt(v).stored()),
{
    reveal(property_of);
    lemma_time(v.time);
}

proof fn lemma_read_mdft(v: crate::props::TimeInfo, raw: RawPropertyModel)
    requires
        kind_of(raw.box_type) == PropertyKind::Mdft,
        raw.body == property_body(PropertyModel::Mdft(v)),
    ensures
        property_of(raw) == Ok::<PropertyModel, ErrorKind>(PropertyModel::Mdft(v).stored()),
{
    reveal(property_of);
    lemma_time(v.time);
}

proof fn lemma_read_udes(v: UdesModel, raw: RawPropertyModel)
    requires
        kind_of(raw.box_type) == PropertyKind::Udes,
        raw.body == property_body(PropertyModel::Udes(v)),
        PropertyModel::Udes(v).fits(),
    ensures
        property_of(raw) == Ok::<PropertyModel, ErrorKind>(PropertyModel::Udes(v).stored()),
{
    reveal(property_of);
    lemma_udes(v);
}

proof fn lemma_read_altt(v: AlttModel, raw: RawPropertyModel)
    requires
        kind_of(raw.box_type) == PropertyKind::Altt,
        raw.body == property_body(PropertyModel::Altt(v)),
        PropertyModel::Altt(v).fits(),
    ensures
        property_of(raw) == Ok::<PropertyModel, ErrorKind>(PropertyModel::Altt(v).stored()),
{
    reveal(property_of);
    lemma_altt(v);
}

/// Parsing the body of a property gives the property.
proof fn lemma_body(p: PropertyModel, raw: RawPropertyModel)
    requires
        p.fits(),
        !(p is Unknown),
        raw.box_type == p.box_type(),
        raw.body == property_body(p),
    ensures
        property_of(raw) == Ok::<PropertyModel, ErrorKind>(p.stored()),
{
    lemma_kind(p);
    match p {
        PropertyModel::Ispe(v) => lemma_read_ispe(v, raw),
        PropertyModel::Pixi(v) => lemma_read_pixi(v, raw),
        PropertyModel::Colr(v) => lemma_read_colr(v, raw),
        PropertyModel::Pasp(v) => lemma_read_pasp(v, raw),
        PropertyModel::Clap(v) => lemma_read_clap(v, raw),
        PropertyModel::Irot(v) => lemma_read_irot(v, raw),
        PropertyModel::Imir(v) => lemma_read_imir(v, raw),
        PropertyModel::Iscl(v) => lemma_read_iscl(v, raw),
        PropertyModel::AuxC(v) => lemma_read_auxc(v, raw),
        PropertyModel::HvcC(v) => lemma_read_hvcc(v, raw),
        PropertyModel::Av1C(v) => lemma_read_av1c(v, raw),
        PropertyModel::LhvC(v) => lemma_read_lhvc(v, raw),
        PropertyModel::AvcC(v) => lemma_read_avcc(v, raw),
        PropertyModel::Oinf(v) => lemma_read_oinf(v, raw),
        PropertyModel::Tols(v) => lemma_read_tols(v, raw),
        PropertyModel::Clli(v) => lemma_read_clli(v, raw),
        PropertyModel::Mdcv(v) => lemma_read_mdcv(v, raw),
        PropertyModel::Cclv(v) => lemma_read_cclv(v, raw),
        PropertyModel::Amve(v) => lemma_read_amve(v, raw),
        PropertyModel::Rloc(v) => lemma_read_rloc(v, raw),
        PropertyModel::Lsel(v) => lemma_read_lsel(v, raw),
        PropertyModel::A1op(v) => lemma_read_a1op(v, raw),
        PropertyModel::A1lx(v) => lemma_read_a1lx(v, raw),
        PropertyModel::Rref(v) => lemma_read_rref(v, raw),
        PropertyModel::Crtt(v) => lemma_read_crtt(v, raw),
        PropertyModel::Mdft(v) => lemma_read_mdft(v, raw),
        PropertyModel::Udes(v) => lemma_read_udes(v, raw),
        PropertyModel::Altt(v) => lemma_read_altt(v, raw),
        PropertyModel::Unknown(_) => {},
    }
}

proof fn lemma_time(time: u64)
    ensures
        time_of(full_body(0, 0, Seq::<u8>::empty() + enc64(time))) == Ok::<
            crate::props::TimeInfo,
            ErrorKind,
        >(crate::props::TimeInfo { time }),
{
    reveal(time_of);
    let x = Seq::<u8>::empty() + enc64(time);
    law_full_box_round_trip(0, 0, x);
    assert(x.subrange(0, 8) =~= enc64(time));
    lemma_read64(x, 0, time);
}

#[verifier::rlimit(60)]
#[verifier::spinoff_prover]
proof fn lemma_unknown(r: RawPropertyModel)
    requires
        PropertyModel::Unknown(r).fits(),
        property_bytes(PropertyModel::Unknown(r)).len() <= usize::MAX,
    ensures
        ({
            let s = property_bytes(PropertyModel::Unknown(r));
            header_at(s, 0) matches Some(h) && h.end_at() == s.len() && property_of(
                raw_property(s, h),
            ) == Ok::<PropertyModel, ErrorKind>(PropertyModel::Unknown(r).stored())
        }),
{
    let e = Seq::<u8>::empty();
    let s = property_bytes(PropertyModel::Unknown(r));
    reveal(property_of);
    match r.user_type {
        Some(ut) => {
            assert(s =~= e + box_bytes(tags::UUID, ut@ + r.body) + e);
            law_uuid_box_round_trip(e, ut, r.body, e);
        },
        None => {
            assert(s =~= e + box_bytes(r.box_type, r.body) + e);
            law_box_round_trip(e, r.box_type, r.body, e);
        },
    }
    let h = header_at(s, 0)->0;
    assert(raw_property(s, h) =~= RawPropertyModel { box_size: s.len() as usize, ..r });
}

#[verifier::rlimit(60)]
#[verifier::spinoff_prover]
proof fn lemma_known(p: PropertyModel)
    requires
        !(p is Unknown),
        p.fits(),
        property_bytes(p).len() <= usize::MAX,
    ensures
        header_at(property_bytes(p), 0) matches Some(h) && h.end_at() == property_bytes(p).len()
            && property_of(raw_property(property_bytes(p), h)) == Ok::<PropertyModel, ErrorKind>(
            p.stored(),
        ),
{
    let e = Seq::<u8>::empty();
    let s = property_bytes(p);
    lemma_kind(p);
    assert(s =~= e + box_bytes(p.box_type(), property_body(p)) + e);
    law_box_round_trip(e, p.box_type(), property_body(p), e);
    let h = header_at(s, 0)->0;
    lemma_body(p, raw_property(s, h));
}

/// Every property that fits can be written as a box and read back: the box
/// header names its type, and parsing the payload gives the property, with the
/// record bytes where it keeps them.
#[verifier::rlimit(50)]
pub proof fn law_property_round_trip(p: PropertyModel)
    requires
        p.fits(),
        property_bytes(p).len() <= usize::MAX,
    ensures
        header_at(property_bytes(p), 0) matches Some(h) && h.end_at() == property_bytes(p).len()
            && property_of(raw_property(property_bytes(p), h)) == Ok::<PropertyModel, ErrorKind>(
            p.stored(),
        ),
{
    match p {
        PropertyModel::Unknown(r) => lemma_unknown(r),
        _ => lemma_known(p),
    }
}

/// What was read as a record can be written, with the bytes it was read from.
proof fn lemma_parsed_record(raw: RawPropertyModel)
    requires
        ({
            let k = kind_of(raw.box_type);
            k is HvcC || k is Av1C || k is LhvC || k is AvcC || k is Oinf
        }),
    ensures
        property_of(raw) matches Ok(p) ==> p.fits() && p.stored() == p,
{
    reveal(property_of);
    reveal(oinf_of);
}

impl PropertyModel {
    /// Whether the property keeps the bytes of its record.
    pub open spec fn is_record(self) -> bool {
        self is HvcC || self is Av1C || self is LhvC || self is AvcC || self is Oinf
    }
}

/// What was read as a list or a small number can be written.
proof fn lemma_parsed_small(raw: RawPropertyModel)
    requires
        ({
            let k = kind_of(raw.box_type);
            k is Pixi || k is Colr || k is Irot || k is Imir || k is A1lx || k is Rref
        }),
    ensures
        property_of(raw) matches Ok(p) ==> p.fits() && !p.is_record(),
{
    reveal(property_of);
    reveal(pixi_of);
    reveal(colr_of);
    reveal(irot_of);
    reveal(imir_of);
    reveal(a1lx_of);
    reveal(rref_of);
}

/// The texts of what was read hold no NUL.
proof fn lemma_read_texts(b: Seq<u8>)
    ensures
        auxc_of(b) matches Ok(a) ==> no_nul(a.aux_type),
        udes_of(b) matches Ok(u) ==> no_nul(u.lang) && no_nul(u.name) && no_nul(u.description)
            && no_nul(u.tags),
        altt_of(b) matches Ok(a) ==> no_nul(a.alt_text) && no_nul(a.alt_lang),
{
    reveal(auxc_of);
    reveal(udes_of);
    reveal(altt_of);
    if let Some((_, _, x)) = full_box(b) {
        let p1 = cstr_end(x, 0);
        let p2 = cstr_end(x, p1);
        let p3 = cstr_end(x, p2);
        lemma_up_to_zero(x, 0);
        lemma_up_to_zero(x, p1);
        lemma_up_to_zero(x, p2);
        lemma_read_text(x, 0);
        lemma_read_text(x, p1);
        lemma_read_text(x, p2);
        lemma_read_text(x, p3);
    }
}

/// What was read as texts can be written.
proof fn lemma_parsed_texts(raw: RawPropertyModel)
    requires
        ({
            let k = kind_of(raw.box_type);
            k is AuxC || k is Udes || k is Altt
        }),
    ensures
        property_of(raw) matches Ok(p) ==> p.fits() && !p.is_record(),
{
    reveal(property_of);
    lemma_read_texts(raw.body);
}

/// What was read as fields of fixed size can be written.
#[verifier::rlimit(60)]
#[verifier::spinoff_prover]
proof fn lemma_parsed_fixed(raw: RawPropertyModel)
    requires
        ({
            let k = kind_of(raw.box_type);
            k is Ispe || k is Pasp || k is Clap || k is Iscl || k is Tols || k is Clli || k is Mdcv
                || k is Cclv || k is Amve || k is Rloc || k is Lsel || k is A1op || k is Crtt
                || k is Mdft
        }),
    ensures
        property_of(raw) matches Ok(p) ==> p.fits() && !p.is_record(),
{
    reveal(property_of);
    match kind_of(raw.box_type) {
        PropertyKind::Ispe => {},
        PropertyKind::Pasp => {},
        PropertyKind::Clap => {},
        PropertyKind::Iscl => {},
        PropertyKind::Tols => {},
        PropertyKind::Clli => {},
        PropertyKind::Mdcv => {},
        PropertyKind::Cclv => {},
        PropertyKind::Amve => {},
        PropertyKind::Rloc => {},
        PropertyKind::Lsel => {},
        PropertyKind::A1op => {},
        PropertyKind::Crtt => {},
        _ => {},
    }
}

/// What was read as an unknown property can be written.
proof fn lemma_parsed_unknown(raw: RawPropertyModel)
    requires
        (raw.box_type == tags::UUID) == (raw.user_type is Some),
        kind_of(raw.box_type) is Unknown,
    ensures
        property_of(raw) matches Ok(p) ==> p.fits() && !p.is_record(),
{
    reveal(property_of);
}

impl PropertyModel {
    /// The property, with the size of its box where it keeps that.
    pub open spec fn in_box_of(self, size: usize) -> PropertyModel {
        match self {
            PropertyModel::Unknown(r) => PropertyModel::Unknown(
                RawPropertyModel { box_size: size, ..r },
            ),
            _ => self,
        }
    }
}

/// Whatever parses as a property serializes, and parses again to the same
/// property; the size that is kept of an unknown box is the one it has then.
#[verifier::rlimit(50)]
pub proof fn law_parsed_property(raw: RawPropertyModel)
    requires
        (raw.box_type == tags::UUID) == (raw.user_type is Some),
        property_of(raw) matches Ok(p) ==> property_bytes(p).len() <= usize::MAX,
    ensures
        property_of(raw) matches Ok(p) ==> header_at(property_bytes(p), 0) matches Some(h)
            && property_of(raw_property(property_bytes(p), h)) == Ok::<PropertyModel, ErrorKind>(
            p.in_box_of(property_bytes(p).len() as usize),
        ),
{
    match kind_of(raw.box_type) {
        PropertyKind::HvcC | PropertyKind::Av1C | PropertyKind::LhvC | PropertyKind::AvcC
        | PropertyKind::Oinf => lemma_parsed_record(raw),
        PropertyKind::Pixi | PropertyKind::Colr | PropertyKind::Irot | PropertyKind::Imir
        | PropertyKind::A1lx | PropertyKind::Rref => lemma_parsed_small(raw),
        PropertyKind::AuxC | PropertyKind::Udes | PropertyKind::Altt => lemma_parsed_texts(raw),
        PropertyKind::Unknown => lemma_parsed_unknown(raw),
        _ => lemma_parsed_fixed(raw),
    }
    match property_of(raw) {
        Ok(p) => {
            law_property_round_trip(p);
        },
        Err(_) => {},
    }
}

} // verus!
