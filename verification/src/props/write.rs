//! Serialization of the typed properties back into `ipco` box bytes
//! (used by the writer).
use crate::boxes::write::{box_bytes, boxed, full_body, full_boxed};
use crate::boxes::FourCc;
use crate::bytes::{copy_of, enc16, enc32, enc64, from_i32, put, put16, put32, put64, unsigned32};
use crate::hvcc::bit;
use crate::props::{
    A1lx, AlttModel, AuxCModel, Cclv, Clap, Colr, ColrModel, Iscl, Mdcv, Property, PropertyModel, UdesModel,
};
use crate::tags;
use vstd::prelude::*;
use vstd::utf8::encode_utf8;

verus! {

/// The record bytes of a configuration: as read, or else built from the
/// fields.
pub open spec fn kept_or(raw: Seq<u8>, built: Seq<u8>) -> Seq<u8> {
    if raw.len() > 0 {
        raw
    } else {
        built
    }
}

/// The bytes of `clap`.
pub open spec fn clap_bytes(c: Clap) -> Seq<u8> {
    Seq::<u8>::empty() + enc32(c.width_n) + enc32(c.width_d) + enc32(c.height_n) + enc32(c.height_d)
        + enc32(unsigned32(c.horiz_off_n)) + enc32(c.horiz_off_d) + enc32(unsigned32(c.vert_off_n))
        + enc32(c.vert_off_d)
}

/// The bytes of `iscl`.
pub open spec fn iscl_bytes(v: Iscl) -> Seq<u8> {
    Seq::<u8>::empty() + enc16(v.width_num) + enc16(v.width_den) + enc16(v.height_num) + enc16(
        v.height_den,
    )
}

/// The bytes of `mdcv`.
pub open spec fn mdcv_bytes(m: Mdcv) -> Seq<u8> {
    Seq::<u8>::empty() + enc16(m.display_primaries[0].0) + enc16(m.display_primaries[0].1) + enc16(
        m.display_primaries[1].0,
    ) + enc16(m.display_primaries[1].1) + enc16(m.display_primaries[2].0) + enc16(
        m.display_primaries[2].1,
    ) + enc16(m.white_point.0) + enc16(m.white_point.1) + enc32(m.max_luminance) + enc32(
        m.min_luminance,
    )
}

/// The flag byte of `cclv`.
pub open spec fn cclv_flags(c: Cclv) -> u8 {
    (bit(c.cancel) * 0x80 + bit(c.persistence) * 0x40 + bit(c.primaries is Some) * 0x20 + bit(
        c.min_luminance is Some,
    ) * 0x10 + bit(c.max_luminance is Some) * 0x08 + bit(c.avg_luminance is Some) * 0x04) as u8
}

/// The bytes of a value that may be absent.
pub open spec fn value_bytes(v: Option<u32>) -> Seq<u8> {
    match v {
        Some(x) => enc32(x),
        None => Seq::empty(),
    }
}

/// The bytes of the primaries of `cclv`.
pub open spec fn primaries_bytes(p: Option<[(i32, i32); 3]>) -> Seq<u8> {
    match p {
        Some(p) => Seq::<u8>::empty() + enc32(unsigned32(p[0].0)) + enc32(unsigned32(p[0].1))
            + enc32(unsigned32(p[1].0)) + enc32(unsigned32(p[1].1)) + enc32(unsigned32(p[2].0))
            + enc32(unsigned32(p[2].1)),
        None => Seq::empty(),
    }
}

/// The bytes of `cclv`.
pub open spec fn cclv_bytes(c: Cclv) -> Seq<u8> {
    Seq::<u8>::empty().push(cclv_flags(c)) + primaries_bytes(c.primaries) + value_bytes(
        c.min_luminance,
    ) + value_bytes(c.max_luminance) + value_bytes(c.avg_luminance)
}

/// The bytes of `a1lx`: the sizes in 32 bits, or their low 16.
pub open spec fn a1lx_bytes(a: A1lx) -> Seq<u8> {
    if a.large_size {
        Seq::<u8>::empty().push(1u8) + enc32(a.layer_size[0]) + enc32(a.layer_size[1]) + enc32(
            a.layer_size[2],
        )
    } else {
        Seq::<u8>::empty().push(0u8) + enc16((a.layer_size[0] % 0x1_0000) as u16) + enc16(
            (a.layer_size[1] % 0x1_0000) as u16,
        ) + enc16((a.layer_size[2] % 0x1_0000) as u16)
    }
}

/// The codes, one after the other.
pub open spec fn codes_bytes(codes: Seq<FourCc>) -> Seq<u8>
    decreases codes.len(),
{
    if codes.len() == 0 {
        Seq::empty()
    } else {
        codes_bytes(codes.drop_last()) + codes.last()@
    }
}

/// The bytes of a text and its terminator.
pub open spec fn text_bytes(s: Seq<char>) -> Seq<u8> {
    encode_utf8(s).push(0u8)
}

/// The bytes of `udes`.
pub open spec fn udes_bytes(u: UdesModel) -> Seq<u8> {
    Seq::<u8>::empty() + text_bytes(u.lang) + text_bytes(u.name) + text_bytes(u.description)
        + text_bytes(u.tags)
}

/// The bytes of `altt`.
pub open spec fn altt_bytes(a: AlttModel) -> Seq<u8> {
    Seq::<u8>::empty() + text_bytes(a.alt_text) + text_bytes(a.alt_lang)
}

/// The bytes of `auxC`.
pub open spec fn auxc_bytes(a: AuxCModel) -> Seq<u8> {
    Seq::<u8>::empty() + text_bytes(a.aux_type) + a.aux_subtype
}

/// The `colr` body.
pub open spec fn colr_bytes(c: ColrModel) -> Seq<u8> {
    match c {
        ColrModel::Nclx { primaries, transfer, matrix, full_range } => (tags::NCLX@ + enc16(
            primaries,
        ) + enc16(transfer) + enc16(matrix)).push(
            if full_range {
                0x80u8
            } else {
                0u8
            },
        ),
        ColrModel::Icc { restricted, profile } => (if restricted {
            tags::RICC@
        } else {
            tags::PROF@
        }) + profile,
        ColrModel::Other { colour_type, payload } => colour_type@ + payload,
    }
}

/// The payload of the box of a property.
pub open spec fn property_body(p: PropertyModel) -> Seq<u8> {
    match p {
        PropertyModel::Ispe(v) => full_body(
            0,
            0,
            Seq::<u8>::empty() + enc32(v.width) + enc32(v.height),
        ),
        PropertyModel::Pixi(v) => full_body(
            0,
            0,
            Seq::<u8>::empty().push((v.bits_per_channel.len() % 0x100) as u8) + v.bits_per_channel,
        ),
        PropertyModel::Colr(c) => colr_bytes(c),
        PropertyModel::Pasp(v) => Seq::<u8>::empty() + enc32(v.h_spacing) + enc32(v.v_spacing),
        PropertyModel::Clap(c) => clap_bytes(c),
        PropertyModel::Irot(v) => Seq::<u8>::empty().push((v.angle % 4) as u8),
        PropertyModel::Imir(v) => Seq::<u8>::empty().push((v.axis % 2) as u8),
        PropertyModel::Iscl(v) => full_body(0, 0, iscl_bytes(v)),
        PropertyModel::AuxC(a) => full_body(0, 0, auxc_bytes(a)),
        PropertyModel::HvcC(h) => kept_or(h.raw, h.bytes()),
        PropertyModel::Av1C(a) => kept_or(a.raw, a.bytes()),
        PropertyModel::LhvC(c) => kept_or(c.raw, c.bytes()),
        PropertyModel::AvcC(c) => kept_or(c.raw, c.bytes()),
        PropertyModel::Oinf(o) => full_body(0, 0, kept_or(o.raw, o.bytes())),
        PropertyModel::Tols(t) => full_body(0, 0, Seq::<u8>::empty() + enc16(t)),
        PropertyModel::Clli(c) => Seq::<u8>::empty() + enc16(c.max_content_light_level) + enc16(
            c.max_pic_average_light_level,
        ),
        PropertyModel::Mdcv(m) => mdcv_bytes(m),
        PropertyModel::Cclv(c) => cclv_bytes(c),
        PropertyModel::Amve(a) => Seq::<u8>::empty() + enc32(a.ambient_illuminance) + enc16(
            a.ambient_light_x,
        ) + enc16(a.ambient_light_y),
        PropertyModel::Rloc(r) => full_body(
            0,
            0,
            Seq::<u8>::empty() + enc32(r.horizontal_offset) + enc32(r.vertical_offset),
        ),
        PropertyModel::Lsel(l) => Seq::<u8>::empty() + enc16(l.layer_id),
        PropertyModel::A1op(a) => Seq::<u8>::empty().push(a.op_index),
        PropertyModel::A1lx(a) => a1lx_bytes(a),
        PropertyModel::Rref(r) => full_body(
            0,
            0,
            Seq::<u8>::empty().push((r.reference_types.len() % 0x100) as u8) + codes_bytes(
                r.reference_types,
            ),
        ),
        PropertyModel::Crtt(t) => full_body(0, 0, Seq::<u8>::empty() + enc64(t.time)),
        PropertyModel::Mdft(t) => full_body(0, 0, Seq::<u8>::empty() + enc64(t.time)),
        PropertyModel::Udes(u) => full_body(0, 0, udes_bytes(u)),
        PropertyModel::Altt(a) => full_body(0, 0, altt_bytes(a)),
        PropertyModel::Unknown(raw) => match raw.user_type {
            Some(ut) => ut@ + raw.body,
            None => raw.body,
        },
    }
}

/// The box of a property.
pub open spec fn property_bytes(p: PropertyModel) -> Seq<u8> {
    let t = match p {
        PropertyModel::Unknown(raw) => if raw.user_type is Some {
            tags::UUID
        } else {
            raw.box_type
        },
        _ => p.box_type(),
    };
    box_bytes(t, property_body(p))
}

fn put_text(out: &mut Vec<u8>, s: &String)
    ensures
        final(out)@ == old(out)@ + text_bytes(s@),
{
    put(out, s.as_str().as_bytes());
    out.push(0);
    proof {
        assert(out@ =~= old(out)@ + text_bytes(s@));
    }
}

fn put_value(out: &mut Vec<u8>, v: Option<u32>)
    ensures
        final(out)@ == old(out)@ + value_bytes(v),
{
    match v {
        Some(x) => put32(out, x),
        None => {},
    }
    proof {
        assert(out@ =~= old(out)@ + value_bytes(v));
    }
}

fn put_signed(out: &mut Vec<u8>, v: i32)
    ensures
        final(out)@ == old(out)@ + enc32(unsigned32(v)),
{
    put32(out, from_i32(v));
}

fn clap_body(c: &Clap) -> (b: Vec<u8>)
    ensures
        b@ == clap_bytes(*c),
{
    let mut b: Vec<u8> = Vec::new();
    put32(&mut b, c.width_n);
    put32(&mut b, c.width_d);
    put32(&mut b, c.height_n);
    put32(&mut b, c.height_d);
    put_signed(&mut b, c.horiz_off_n);
    put32(&mut b, c.horiz_off_d);
    put_signed(&mut b, c.vert_off_n);
    put32(&mut b, c.vert_off_d);
    b
}

fn mdcv_body(m: &Mdcv) -> (b: Vec<u8>)
    ensures
        b@ == mdcv_bytes(*m),
{
    let mut b: Vec<u8> = Vec::new();
    put16(&mut b, m.display_primaries[0].0);
    put16(&mut b, m.display_primaries[0].1);
    put16(&mut b, m.display_primaries[1].0);
    put16(&mut b, m.display_primaries[1].1);
    put16(&mut b, m.display_primaries[2].0);
    put16(&mut b, m.display_primaries[2].1);
    put16(&mut b, m.white_point.0);
    put16(&mut b, m.white_point.1);
    put32(&mut b, m.max_luminance);
    put32(&mut b, m.min_luminance);
    b
}

fn flag_byte(c: &Cclv) -> (f: u8)
    ensures
        f == cclv_flags(*c),
{
    let mut flags: u8 = 0;
    if c.cancel {
        flags = flags + 0x80;
    }
    if c.persistence {
        flags = flags + 0x40;
    }
    if c.primaries.is_some() {
        flags = flags + 0x20;
    }
    if c.min_luminance.is_some() {
        flags = flags + 0x10;
    }
    if c.max_luminance.is_some() {
        flags = flags + 0x08;
    }
    if c.avg_luminance.is_some() {
        flags = flags + 0x04;
    }
    flags
}

/// §12.1.8: a Box, not a FullBox.
fn cclv_body(c: &Cclv) -> (b: Vec<u8>)
    ensures
        b@ == cclv_bytes(*c),
{
    let mut b: Vec<u8> = Vec::new();
    b.push(flag_byte(c));
    let ghost head = b@;
    if let Some(p) = c.primaries {
        put_signed(&mut b, p[0].0);
        put_signed(&mut b, p[0].1);
        put_signed(&mut b, p[1].0);
        put_signed(&mut b, p[1].1);
        put_signed(&mut b, p[2].0);
        put_signed(&mut b, p[2].1);
    }
    proof {
        assert(b@ =~= head + primaries_bytes(c.primaries));
    }
    put_value(&mut b, c.min_luminance);
    put_value(&mut b, c.max_luminance);
    put_value(&mut b, c.avg_luminance);
    b
}

fn a1lx_body(a: &A1lx) -> (b: Vec<u8>)
    ensures
        b@ == a1lx_bytes(*a),
{
    let mut b: Vec<u8> = Vec::new();
    if a.large_size {
        b.push(1);
        put32(&mut b, a.layer_size[0]);
        put32(&mut b, a.layer_size[1]);
        put32(&mut b, a.layer_size[2]);
    } else {
        b.push(0);
        put16(&mut b, (a.layer_size[0] % 0x1_0000) as u16);
        put16(&mut b, (a.layer_size[1] % 0x1_0000) as u16);
        put16(&mut b, (a.layer_size[2] % 0x1_0000) as u16);
    }
    b
}

fn put_codes(out: &mut Vec<u8>, codes: &Vec<FourCc>)
    ensures
        final(out)@ == old(out)@ + codes_bytes(codes@),
{
    let ghost all = codes@;
    let ghost start = out@;
    proof {
        assert(all.take(0) =~= Seq::empty());
        assert(out@ =~= start + codes_bytes(all.take(0)));
    }
    for i in 0..codes.len()
        invariant
            all == codes@,
            out@ == start + codes_bytes(all.take(i as int)),
    {
        proof {
            assert(all.take(i + 1).drop_last() =~= all.take(i as int));
        }
        let ghost before = out@;
        put(out, codes[i].as_slice());
        proof {
            assert(out@ =~= start + codes_bytes(all.take(i + 1)));
        }
    }
    proof {
        assert(all.take(all.len() as int) =~= all);
    }
}

/// Serialize a typed property as a complete box.
pub fn property_box(p: &Property) -> (r: Vec<u8>)
    ensures
        r@ == property_bytes(p@),
{
    let mut b: Vec<u8> = Vec::new();
    match p {
        Property::Ispe(v) => {
            put32(&mut b, v.width);
            put32(&mut b, v.height);
            full_boxed(&tags::ISPE, 0, 0, b.as_slice())
        },
        Property::Pixi(v) => {
            b.push((v.bits_per_channel.len() % 0x100) as u8);
            put(&mut b, v.bits_per_channel.as_slice());
            full_boxed(&tags::PIXI, 0, 0, b.as_slice())
        },
        Property::Colr(c) => {
            let body: Vec<u8> = colr_body(c);
            boxed(&tags::COLR, body.as_slice())
        },
        Property::Pasp(v) => {
            put32(&mut b, v.h_spacing);
            put32(&mut b, v.v_spacing);
            boxed(&tags::PASP, b.as_slice())
        },
        Property::Clap(c) => {
            let body: Vec<u8> = clap_body(c);
            boxed(&tags::CLAP, body.as_slice())
        },
        Property::Irot(v) => {
            b.push(v.angle % 4);
            boxed(&tags::IROT, b.as_slice())
        },
        Property::Imir(v) => {
            b.push(v.axis % 2);
            boxed(&tags::IMIR, b.as_slice())
        },
        Property::Iscl(v) => {
            put16(&mut b, v.width_num);
            put16(&mut b, v.width_den);
            put16(&mut b, v.height_num);
            put16(&mut b, v.height_den);
            full_boxed(&tags::ISCL, 0, 0, b.as_slice())
        },
        Property::AuxC(a) => {
            put_text(&mut b, &a.aux_type);
            put(&mut b, a.aux_subtype.as_slice());
            full_boxed(&tags::AUXC, 0, 0, b.as_slice())
        },
        Property::HvcC(h) => {
            let body: Vec<u8> = h.to_bytes();
            boxed(&tags::HVCC, body.as_slice())
        },
        Property::Av1C(a) => {
            let body: Vec<u8> = a.to_bytes();
            boxed(&tags::AV1C, body.as_slice())
        },
        Property::LhvC(c) => {
            let body: Vec<u8> = if c.raw.len() > 0 {
                copy_of(c.raw.as_slice())
            } else {
                c.serialize()
            };
            boxed(&tags::LHVC, body.as_slice())
        },
        Property::AvcC(c) => {
            let body: Vec<u8> = if c.raw.len() > 0 {
                copy_of(c.raw.as_slice())
            } else {
                c.serialize()
            };
            boxed(&tags::AVCC, body.as_slice())
        },
        Property::Oinf(o) => {
            let body: Vec<u8> = if o.raw.len() > 0 {
                copy_of(o.raw.as_slice())
            } else {
                o.serialize()
            };
            full_boxed(&tags::OINF, 0, 0, body.as_slice())
        },
        Property::Tols(t) => {
            put16(&mut b, *t);
            full_boxed(&tags::TOLS, 0, 0, b.as_slice())
        },
        Property::Clli(c) => {
            put16(&mut b, c.max_content_light_level);
            put16(&mut b, c.max_pic_average_light_level);
            boxed(&tags::CLLI, b.as_slice())
        },
        Property::Mdcv(m) => {
            let body: Vec<u8> = mdcv_body(m);
            boxed(&tags::MDCV, body.as_slice())
        },
        Property::Cclv(c) => {
            let body: Vec<u8> = cclv_body(c);
            boxed(&tags::CCLV, body.as_slice())
        },
        Property::Amve(a) => {
            put32(&mut b, a.ambient_illuminance);
            put16(&mut b, a.ambient_light_x);
            put16(&mut b, a.ambient_light_y);
            // §12.1.9: a Box, not a FullBox.
            boxed(&tags::AMVE, b.as_slice())
        },
        Property::Rloc(v) => {
            put32(&mut b, v.horizontal_offset);
            put32(&mut b, v.vertical_offset);
            full_boxed(&tags::RLOC, 0, 0, b.as_slice())
        },
        Property::Lsel(l) => {
            put16(&mut b, l.layer_id);
            boxed(&tags::LSEL, b.as_slice())
        },
        Property::A1op(a) => {
            b.push(a.op_index);
            boxed(&tags::A1OP, b.as_slice())
        },
        Property::A1lx(a) => {
            let body: Vec<u8> = a1lx_body(a);
            boxed(&tags::A1LX, body.as_slice())
        },
        Property::Rref(v) => {
            b.push((v.reference_types.len() % 0x100) as u8);
            put_codes(&mut b, &v.reference_types);
            full_boxed(&tags::RREF, 0, 0, b.as_slice())
        },
        Property::Crtt(t) => {
            put64(&mut b, t.time);
            full_boxed(&tags::CRTT, 0, 0, b.as_slice())
        },
        Property::Mdft(t) => {
            put64(&mut b, t.time);
            full_boxed(&tags::MDFT, 0, 0, b.as_slice())
        },
        Property::Udes(u) => {
            put_text(&mut b, &u.lang);
            put_text(&mut b, &u.name);
            put_text(&mut b, &u.description);
            put_text(&mut b, &u.tags);
            full_boxed(&tags::UDES, 0, 0, b.as_slice())
        },
        Property::Altt(a) => {
            put_text(&mut b, &a.alt_text);
            put_text(&mut b, &a.alt_lang);
            full_boxed(&tags::ALTT, 0, 0, b.as_slice())
        },
        Property::Unknown(raw) => {
            match raw.user_type {
                Some(ut) => {
                    let mut body: Vec<u8> = copy_of(ut.as_slice());
                    put(&mut body, raw.body.as_slice());
                    boxed(&tags::UUID, body.as_slice())
                },
                None => boxed(&raw.box_type, raw.body.as_slice()),
            }
        },
    }
}

/// The `colr` box body for a [`Colr`].
pub fn colr_body(c: &Colr) -> (r: Vec<u8>)
    ensures
        r@ == colr_bytes(c@),
{
    match c {
        Colr::Nclx { primaries, transfer, matrix, full_range } => {
            let mut b: Vec<u8> = copy_of(tags::NCLX.as_slice());
            put16(&mut b, *primaries);
            put16(&mut b, *transfer);
            put16(&mut b, *matrix);
            b.push(
                if *full_range {
                    0x80
                } else {
                    0
                },
            );
            b
        },
        Colr::Icc { restricted, profile } => {
            let mut b: Vec<u8> = if *restricted {
                copy_of(tags::RICC.as_slice())
            } else {
                copy_of(tags::PROF.as_slice())
            };
            put(&mut b, profile.as_slice());
            b
        },
        Colr::Other { colour_type, payload } => {
            let mut b: Vec<u8> = copy_of(colour_type.as_slice());
            put(&mut b, payload.as_slice());
            b
        },
    }
}

} // verus!
