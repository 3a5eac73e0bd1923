//! Reading back a serialized `oinf` record.
use crate::avcc::at_most;
use crate::bytes::{be16, enc16, enc32, lemma_assoc, lemma_read16, lemma_read32};
use crate::error::ErrorKind;
use crate::hvcc::bit;
use crate::lhvc::{
    dependencies_at, dependencies_bytes, dependency_at, dependency_bytes, dimension_bytes, dimension_value,
    dimensions_at, layer_at, layers_bytes, mask_bit, operating_point_at, operating_point_bytes, operating_points_at,
    operating_points_bytes, operating_points_of, ptl_at, ptl_bytes, ptls_bytes, LayerDependencyModel,
    OperatingPointLayer, OperatingPointModel, OperatingPointPtl, OperatingPointsModel,
};
use vstd::prelude::*;

verus! {

impl OperatingPointsModel {
    /// Whether every field fits its bits and every list its count.
    pub open spec fn fits(self) -> bool {
        &&& self.ptls.len() <= 63
        &&& self.operating_points.len() <= 65535
        &&& self.layers.len() <= 255
        &&& forall|i: int| 0 <= i < self.ptls.len() ==> ptl_fits(#[trigger] self.ptls[i])
        &&& forall|i: int|
            0 <= i < self.operating_points.len() ==> (#[trigger] self.operating_points[i]).fits()
        &&& forall|i: int|
            0 <= i < self.layers.len() ==> (#[trigger] self.layers[i]).fits(self.scalability_mask)
    }
}

/// Whether the fields of a PTL entry fit their bits.
pub open spec fn ptl_fits(m: OperatingPointPtl) -> bool {
    m.profile_space < 4 && m.profile_idc < 32 && m.constraint_indicator_flags
        < 0x1_0000_0000_0000
}

impl OperatingPointModel {
    /// Whether every field fits its bits.
    pub open spec fn fits(self) -> bool {
        &&& self.layers.len() <= 255
        &&& forall|i: int| 0 <= i < self.layers.len() ==> (#[trigger] self.layers[i]).layer_id < 64
        &&& self.max_chroma_format < 4
        &&& self.max_bit_depth_minus8 < 8
        &&& self.frame_rate matches Some((_, c)) ==> c < 4
    }
}

/// The identifiers of the set mask bits below `j`, each with its dimension.
pub open spec fn listed_dimensions(dims: Seq<(u8, u8)>, mask: u16, j: int) -> Seq<(u8, u8)>
    decreases j,
{
    if j <= 0 {
        Seq::empty()
    } else if mask_bit(mask, j - 1) {
        listed_dimensions(dims, mask, j - 1).push(((j - 1) as u8, dimension_value(dims, j - 1)))
    } else {
        listed_dimensions(dims, mask, j - 1)
    }
}

impl LayerDependencyModel {
    /// Whether the list fits its count and one identifier is given for each
    /// dimension of the mask, in order.
    pub open spec fn fits(self, mask: u16) -> bool {
        &&& self.direct_ref_layer_ids.len() <= 255
        &&& self.dimension_identifiers == listed_dimensions(self.dimension_identifiers, mask, 16)
    }
}

proof fn lemma_ptl(a: Seq<u8>, m: OperatingPointPtl, t: Seq<u8>)
    requires
        ptl_fits(m),
    ensures
        ptl_bytes(m).len() == 12,
        ptl_at(a + ptl_bytes(m) + t, a.len() as int) == m,
{
    let s = a + ptl_bytes(m) + t;
    let n = a.len() as int;
    let hi = (m.constraint_indicator_flags / 0x1_0000_0000 % 0x1_0000) as u16;
    let lo = (m.constraint_indicator_flags % 0x1_0000_0000) as u32;
    let f = (m.profile_space % 4 * 64 + bit(m.tier_flag) * 32 + m.profile_idc % 32) as u8;
    assert(s[n] == f);
    assert(s.subrange(n + 1, n + 5) =~= enc32(m.profile_compatibility_flags));
    assert(s.subrange(n + 5, n + 7) =~= enc16(hi));
    assert(s.subrange(n + 7, n + 11) =~= enc32(lo));
    assert(s[n + 11] == m.level_idc);
    lemma_read32(s, n + 1, m.profile_compatibility_flags);
    lemma_read16(s, n + 5, hi);
    lemma_read32(s, n + 7, lo);
}

proof fn lemma_ptls(a: Seq<u8>, l: Seq<OperatingPointPtl>, t: Seq<u8>)
    requires
        forall|i: int| 0 <= i < l.len() ==> ptl_fits(#[trigger] l[i]),
    ensures
        ptls_bytes(l).len() == 12 * l.len(),
        forall|i: int|
            0 <= i < l.len() ==> #[trigger] ptl_at(a + ptls_bytes(l) + t, a.len() + 12 * i) == l[i],
    decreases l.len(),
{
    if l.len() > 0 {
        let d = l.drop_last();
        let last = l.last();
        let s = a + ptls_bytes(l) + t;
        lemma_ptls(a, d, ptl_bytes(last) + t);
        lemma_ptl(a + ptls_bytes(d), last, t);
        assert(s =~= a + ptls_bytes(d) + (ptl_bytes(last) + t));
        assert(s =~= a + ptls_bytes(d) + ptl_bytes(last) + t);
        assert forall|i: int| 0 <= i < l.len() implies #[trigger] ptl_at(s, a.len() + 12 * i)
            == l[i] by {
            if i < d.len() {
                assert(d[i] == l[i]);
            }
        }
    }
}

proof fn lemma_layers(a: Seq<u8>, l: Seq<OperatingPointLayer>, t: Seq<u8>)
    requires
        forall|i: int| 0 <= i < l.len() ==> (#[trigger] l[i]).layer_id < 64,
    ensures
        layers_bytes(l).len() == 2 * l.len(),
        forall|i: int|
            0 <= i < l.len() ==> #[trigger] layer_at(a + layers_bytes(l) + t, a.len() + 2 * i)
                == l[i],
    decreases l.len(),
{
    if l.len() > 0 {
        let d = l.drop_last();
        let last = l.last();
        let s = a + layers_bytes(l) + t;
        let f = (last.layer_id % 64 * 4 + bit(last.is_output_layer) * 2 + bit(
            last.is_alternate_output_layer,
        )) as u8;
        let e = Seq::<u8>::empty().push(last.ptl_idx).push(f);
        lemma_layers(a, d, e + t);
        assert(s =~= a + layers_bytes(d) + (e + t));
        let n = a.len() as int + 2 * d.len() as int;
        assert(s[n] == last.ptl_idx && s[n + 1] == f);
        assert forall|i: int| 0 <= i < l.len() implies #[trigger] layer_at(s, a.len() + 2 * i)
            == l[i] by {
            if i < d.len() {
                assert(d[i] == l[i]);
            }
        }
    }
}

#[verifier::rlimit(90)]
#[verifier::spinoff_prover]
proof fn lemma_operating_point(a: Seq<u8>, op: OperatingPointModel, t: Seq<u8>)
    requires
        op.fits(),
    ensures
        operating_point_bytes(op).len() >= 13,
        operating_point_at(a + operating_point_bytes(op) + t, a.len() as int) == Ok::<
            (OperatingPointModel, int),
            ErrorKind,
        >((op, (a.len() + operating_point_bytes(op).len()) as int)),
{
    reveal(operating_point_at);
    reveal(operating_point_bytes);
    let b = operating_point_bytes(op);
    let s = a + b + t;
    let p = a.len() as int;
    let l = op.layers;
    let n = l.len();
    assert(at_most(op.layers, 255) =~= l);
    let h = enc16(op.output_layer_set_idx).push(op.max_temporal_id).push(n as u8);
    let lb = layers_bytes(l);
    let f = (op.max_chroma_format % 4 * 64 + op.max_bit_depth_minus8 % 8 * 8 + bit(
        op.frame_rate is Some,
    ) * 2 + bit(op.bit_rate is Some)) as u8;
    let sizes = (enc16(op.min_pic_size.0) + enc16(op.min_pic_size.1) + enc16(op.max_pic_size.0)
        + enc16(op.max_pic_size.1)).push(f);
    let rate = match op.frame_rate {
        Some((avg, c)) => enc16(avg).push((c % 4) as u8),
        None => Seq::<u8>::empty(),
    };
    let bits = match op.bit_rate {
        Some((max, avg)) => enc32(max) + enc32(avg),
        None => Seq::<u8>::empty(),
    };
    lemma_layers(a + h, l, sizes + rate + bits + t);
    assert(b =~= h + lb + (sizes + rate + bits));
    assert(s =~= a + h + lb + (sizes + rate + bits + t));
    let q = p + 4 + 2 * n;
    assert(h.len() == 4 && sizes.len() == 9);
    assert(s.subrange(p, p + 4) =~= h);
    assert(s[p] == h[0] && s[p + 1] == h[1] && s[p + 2] == h[2] && s[p + 3] == h[3]);
    assert(h.subrange(0, 2) =~= enc16(op.output_layer_set_idx));
    lemma_read16(h, 0, op.output_layer_set_idx);
    assert(s.subrange(q, q + 9) =~= sizes);
    lemma_sizes(op, f);
    assert forall|i: int| 0 <= i < 9 implies #[trigger] s[q + i] == sizes[i] by {
        assert(s.subrange(q, q + 9)[i] == s[q + i]);
    }
    assert(s[q] == sizes[0] && s[q + 1] == sizes[1] && s[q + 2] == sizes[2] && s[q + 3] == sizes[3]
        && s[q + 4] == sizes[4] && s[q + 5] == sizes[5] && s[q + 6] == sizes[6] && s[q + 7]
        == sizes[7] && s[q + 8] == sizes[8]);
    if let Some((avg, c)) = op.frame_rate {
        assert(s.subrange(q + 9, q + 11) =~= enc16(avg));
        lemma_read16(s, q + 9, avg);
        assert(s[q + 11] == (c % 4) as u8);
    }
    if let Some((max, avg)) = op.bit_rate {
        let r = q + 9 + rate.len();
        assert(s.subrange(r, r + 4) =~= enc32(max));
        assert(s.subrange(r + 4, r + 8) =~= enc32(avg));
        lemma_read32(s, r, max);
        lemma_read32(s, r + 4, avg);
    }
    let got = Seq::new(s[p + 3] as nat, |i: int| layer_at(s, p + 4 + 2 * i));
    assert(got =~= l) by {
        assert forall|i: int| 0 <= i < l.len() implies got[i] == l[i] by {
            assert(layer_at(s, (a + h).len() + 2 * i) == l[i]);
        }
    }
}

proof fn lemma_sizes(op: OperatingPointModel, f: u8)
    requires
        op.fits(),
        f == (op.max_chroma_format % 4 * 64 + op.max_bit_depth_minus8 % 8 * 8 + bit(
            op.frame_rate is Some,
        ) * 2 + bit(op.bit_rate is Some)) as u8,
    ensures
        f / 64 == op.max_chroma_format,
        f / 8 % 8 == op.max_bit_depth_minus8,
        (f / 2 % 2 == 1) == (op.frame_rate is Some),
        (f % 2 == 1) == (op.bit_rate is Some),
        ({
            let sizes = (enc16(op.min_pic_size.0) + enc16(op.min_pic_size.1) + enc16(
                op.max_pic_size.0,
            ) + enc16(op.max_pic_size.1)).push(f);
            &&& sizes.len() == 9
            &&& be16(sizes, 0) == op.min_pic_size.0
            &&& be16(sizes, 2) == op.min_pic_size.1
            &&& be16(sizes, 4) == op.max_pic_size.0
            &&& be16(sizes, 6) == op.max_pic_size.1
            &&& sizes[8] == f
        }),
{
    let sizes = (enc16(op.min_pic_size.0) + enc16(op.min_pic_size.1) + enc16(op.max_pic_size.0)
        + enc16(op.max_pic_size.1)).push(f);
    assert(sizes.subrange(0, 2) =~= enc16(op.min_pic_size.0));
    assert(sizes.subrange(2, 4) =~= enc16(op.min_pic_size.1));
    assert(sizes.subrange(4, 6) =~= enc16(op.max_pic_size.0));
    assert(sizes.subrange(6, 8) =~= enc16(op.max_pic_size.1));
    lemma_read16(sizes, 0, op.min_pic_size.0);
    lemma_read16(sizes, 2, op.min_pic_size.1);
    lemma_read16(sizes, 4, op.max_pic_size.0);
    lemma_read16(sizes, 6, op.max_pic_size.1);
}

proof fn lemma_operating_points(
    a: Seq<u8>,
    l: Seq<OperatingPointModel>,
    t: Seq<u8>,
    acc: Seq<OperatingPointModel>,
)
    requires
        forall|i: int| 0 <= i < l.len() ==> (#[trigger] l[i]).fits(),
    ensures
        operating_points_bytes(l).len() >= 13 * l.len(),
        operating_points_at(
            a + operating_points_bytes(l) + t,
            a.len() as int,
            l.len() as int,
            acc,
        ) == Ok::<(Seq<OperatingPointModel>, int), ErrorKind>(
            (acc + l, (a.len() + operating_points_bytes(l).len()) as int),
        ),
    decreases l.len(),
{
    if l.len() == 0 {
        assert(acc + l =~= acc);
    } else {
        let d = l.drop_first();
        let h = operating_point_bytes(l[0]);
        let r = operating_points_bytes(d);
        assert forall|i: int| 0 <= i < d.len() implies (#[trigger] d[i]).fits() by {
            assert(d[i] == l[i + 1]);
        }
        lemma_operating_point(a, l[0], r + t);
        lemma_operating_points(a + h, d, t, acc.push(l[0]));
        assert(a + operating_points_bytes(l) + t =~= a + h + (r + t));
        assert(a + operating_points_bytes(l) + t =~= a + h + r + t);
        assert(acc.push(l[0]) + d =~= acc + l);
    }
}

proof fn lemma_dimensions(
    a: Seq<u8>,
    dims: Seq<(u8, u8)>,
    mask: u16,
    t: Seq<u8>,
    j: int,
)
    requires
        0 <= j <= 16,
    ensures
        dimension_bytes(dims, mask, j).len() <= dimension_bytes(dims, mask, 16).len(),
        dimensions_at(
            a + dimension_bytes(dims, mask, 16) + t,
            (a.len() + dimension_bytes(dims, mask, j).len()) as int,
            mask,
            j,
            listed_dimensions(dims, mask, j),
        ) == Ok::<(Seq<(u8, u8)>, int), ErrorKind>(
            (
                listed_dimensions(dims, mask, 16),
                (a.len() + dimension_bytes(dims, mask, 16).len()) as int,
            ),
        ),
        forall|k: int|
            0 <= k < dimension_bytes(dims, mask, j).len() ==> #[trigger] dimension_bytes(
                dims,
                mask,
                16,
            )[k] == dimension_bytes(dims, mask, j)[k],
    decreases 16 - j,
{
    if j < 16 {
        lemma_dimensions(a, dims, mask, t, j + 1);
        let d = dimension_bytes(dims, mask, j);
        let next = dimension_bytes(dims, mask, j + 1);
        let all = dimension_bytes(dims, mask, 16);
        let s = a + all + t;
        assert forall|k: int| 0 <= k < d.len() implies #[trigger] all[k] == d[k] by {
            assert(next[k] == d[k]);
        }
        if mask_bit(mask, j) {
            assert(all[d.len() as int] == next[d.len() as int]);
            assert(s[(a.len() + d.len()) as int] == dimension_value(dims, j));
        }
    }
}

proof fn lemma_dependency(a: Seq<u8>, d: LayerDependencyModel, mask: u16, t: Seq<u8>)
    requires
        d.fits(mask),
    ensures
        dependency_at(a + dependency_bytes(d, mask) + t, a.len() as int, mask) == Ok::<
            (LayerDependencyModel, int),
            ErrorKind,
        >((d, (a.len() + dependency_bytes(d, mask).len()) as int)),
{
    let refs = d.direct_ref_layer_ids;
    assert(at_most(refs, 255) =~= refs);
    let h = Seq::<u8>::empty().push(d.layer_id).push(refs.len() as u8);
    let db = dimension_bytes(d.dimension_identifiers, mask, 16);
    let s = a + dependency_bytes(d, mask) + t;
    let p = a.len() as int;
    lemma_dimensions(a + h + refs, d.dimension_identifiers, mask, t, 0);
    assert(s =~= a + h + refs + db + t);
    assert(s[p] == d.layer_id && s[p + 1] == refs.len() as u8);
    assert(s.subrange(p + 2, p + 2 + refs.len()) =~= refs);
}

proof fn lemma_dependencies(
    a: Seq<u8>,
    l: Seq<LayerDependencyModel>,
    mask: u16,
    t: Seq<u8>,
    acc: Seq<LayerDependencyModel>,
)
    requires
        forall|i: int| 0 <= i < l.len() ==> (#[trigger] l[i]).fits(mask),
    ensures
        dependencies_at(
            a + dependencies_bytes(l, mask) + t,
            a.len() as int,
            mask,
            l.len() as int,
            acc,
        ) == Ok::<(Seq<LayerDependencyModel>, int), ErrorKind>(
            (acc + l, (a.len() + dependencies_bytes(l, mask).len()) as int),
        ),
    decreases l.len(),
{
    if l.len() == 0 {
        assert(acc + l =~= acc);
    } else {
        let d = l.drop_first();
        let h = dependency_bytes(l[0], mask);
        let r = dependencies_bytes(d, mask);
        assert forall|i: int| 0 <= i < d.len() implies (#[trigger] d[i]).fits(mask) by {
            assert(d[i] == l[i + 1]);
        }
        lemma_dependency(a, l[0], mask, r + t);
        lemma_dependencies(a + h, d, mask, t, acc.push(l[0]));
        assert(a + dependencies_bytes(l, mask) + t =~= a + h + (r + t));
        assert(a + dependencies_bytes(l, mask) + t =~= a + h + r + t);
        assert(acc.push(l[0]) + d =~= acc + l);
    }
}

/// The parts of a serialized record, in order.
proof fn lemma_parts(c: OperatingPointsModel)
    requires
        c.fits(),
    ensures
        ({
            let h = enc16(c.scalability_mask).push(c.ptls.len() as u8);
            let pb = ptls_bytes(c.ptls);
            let nb = enc16(c.operating_points.len() as u16);
            let ob = operating_points_bytes(c.operating_points);
            let k = Seq::<u8>::empty().push(c.layers.len() as u8);
            let db = dependencies_bytes(c.layers, c.scalability_mask);
            &&& c.bytes() == h + pb + (nb + ob + k + db)
            &&& c.bytes() == h + pb + nb + ob + (k + db)
            &&& c.bytes() == h + pb + nb + ob + k + db + Seq::<u8>::empty()
        }),
{
    let h = enc16(c.scalability_mask).push(c.ptls.len() as u8);
    let pb = ptls_bytes(c.ptls);
    let nb = enc16(c.operating_points.len() as u16);
    let ob = operating_points_bytes(c.operating_points);
    let k = Seq::<u8>::empty().push(c.layers.len() as u8);
    let db = dependencies_bytes(c.layers, c.scalability_mask);
    let x = h + pb + nb + ob;
    assert(at_most(c.ptls, 63) == c.ptls);
    assert(at_most(c.operating_points, 65535) == c.operating_points);
    assert(at_most(c.layers, 255) == c.layers);
    assert(x.push(c.layers.len() as u8) =~= x + k);
    assert(c.bytes() == x + k + db);
    lemma_assoc(x, k, db);
    lemma_assoc(h + pb, nb, ob);
    lemma_assoc(h + pb, nb + ob, k + db);
    lemma_assoc(nb + ob, k, db);
    assert(x + k + db + Seq::<u8>::empty() =~= x + k + db);
}

proof fn lemma_record(
    b: Seq<u8>,
    c: OperatingPointsModel,
    h: Seq<u8>,
    pb: Seq<u8>,
    n: u16,
    ob: Seq<u8>,
    k: Seq<u8>,
    db: Seq<u8>,
)
    requires
        c.ptls.len() <= 63,
        c.layers.len() <= 255,
        h == enc16(c.scalability_mask).push(c.ptls.len() as u8),
        pb.len() == 12 * c.ptls.len(),
        n == c.operating_points.len(),
        ob.len() >= 13 * n,
        k == Seq::<u8>::empty().push(c.layers.len() as u8),
        b == h + pb + (enc16(n) + ob + k + db),
        forall|i: int|
            0 <= i < c.ptls.len() ==> #[trigger] ptl_at(b, 3 + 12 * i) == c.ptls[i],
        operating_points_at(
            b,
            (h + pb + enc16(n)).len() as int,
            n as int,
            Seq::empty(),
        ) == Ok::<(Seq<OperatingPointModel>, int), ErrorKind>(
            (c.operating_points, ((h + pb + enc16(n)).len() + ob.len()) as int),
        ),
        dependencies_at(
            b,
            (h + pb + enc16(n) + ob + k).len() as int,
            c.scalability_mask,
            c.layers.len() as int,
            Seq::empty(),
        ) matches Ok((l, _)) && l == c.layers,
    ensures
        operating_points_of(b) == Ok::<OperatingPointsModel, ErrorKind>(
            OperatingPointsModel { raw: b, ..c },
        ),
{
    let mask = c.scalability_mask;
    let q = 3 + 12 * c.ptls.len() as int;
    assert(b.subrange(0, 2) =~= enc16(mask));
    lemma_read16(b, 0, mask);
    assert(b[2] == c.ptls.len() as u8);
    assert(b.subrange(q, q + 2) =~= enc16(n));
    lemma_read16(b, q, n);
    assert(b[(q + 2 + ob.len()) as int] == c.layers.len() as u8);
    assert(operating_points_of(b)->Ok_0.ptls =~= c.ptls);
}

/// Parsing serialized operating points whose fields fit their bits gives them
/// back, with the bytes kept.
#[verifier::rlimit(50)]
pub proof fn law_operating_points_round_trip(c: OperatingPointsModel)
    requires
        c.fits(),
    ensures
        operating_points_of(c.bytes()) == Ok::<OperatingPointsModel, ErrorKind>(
            OperatingPointsModel { raw: c.bytes(), ..c },
        ),
{
    let mask = c.scalability_mask;
    let h = enc16(mask).push(c.ptls.len() as u8);
    let pb = ptls_bytes(c.ptls);
    let n = c.operating_points.len() as u16;
    let ob = operating_points_bytes(c.operating_points);
    let k = Seq::<u8>::empty().push(c.layers.len() as u8);
    let db = dependencies_bytes(c.layers, mask);
    let e = Seq::<u8>::empty();
    lemma_parts(c);
    lemma_ptls(h, c.ptls, enc16(n) + ob + k + db);
    lemma_operating_points(h + pb + enc16(n), c.operating_points, k + db, Seq::empty());
    lemma_dependencies(h + pb + enc16(n) + ob + k, c.layers, mask, e, Seq::empty());
    assert(Seq::<OperatingPointModel>::empty() + c.operating_points =~= c.operating_points);
    assert(Seq::<LayerDependencyModel>::empty() + c.layers =~= c.layers);
    assert forall|i: int| 0 <= i < c.ptls.len() implies #[trigger] ptl_at(c.bytes(), 3 + 12 * i)
        == c.ptls[i] by {
        assert(ptl_at(c.bytes(), h.len() + 12 * i) == c.ptls[i]);
    }
    lemma_record(c.bytes(), c, h, pb, n, ob, k, db);
}

/// Another dimension behind a list does not change what the list gives.
proof fn lemma_value_stays(dims: Seq<(u8, u8)>, e: (u8, u8), k: int)
    requires
        e.0 != k,
    ensures
        dimension_value(dims.push(e), k) == dimension_value(dims, k),
    decreases dims.len(),
{
    if dims.len() > 0 {
        assert(dims.push(e).drop_first() =~= dims.drop_first().push(e));
        if dims[0].0 != k {
            lemma_value_stays(dims.drop_first(), e, k);
        }
    } else {
        assert(dims.push(e).drop_first() =~= dims);
    }
}

/// A dimension that a list does not give is given by its last entry.
proof fn lemma_value_last(dims: Seq<(u8, u8)>, e: (u8, u8))
    requires
        forall|i: int| 0 <= i < dims.len() ==> (#[trigger] dims[i]).0 != e.0,
    ensures
        dimension_value(dims.push(e), e.0 as int) == e.1,
    decreases dims.len(),
{
    if dims.len() > 0 {
        assert(dims.push(e).drop_first() =~= dims.drop_first().push(e));
        lemma_value_last(dims.drop_first(), e);
    }
}

/// The dimensions listed below `j` are below `j`.
proof fn lemma_listed_below(dims: Seq<(u8, u8)>, mask: u16, j: int)
    requires
        0 <= j <= 16,
    ensures
        forall|i: int|
            0 <= i < listed_dimensions(dims, mask, j).len() ==> (#[trigger] listed_dimensions(
                dims,
                mask,
                j,
            )[i]).0 < j,
    decreases j,
{
    if j > 0 {
        lemma_listed_below(dims, mask, j - 1);
        let before = listed_dimensions(dims, mask, j - 1);
        let all = listed_dimensions(dims, mask, j);
        assert forall|i: int| 0 <= i < all.len() implies (#[trigger] all[i]).0 < j by {
            if i < before.len() {
                assert(all[i] == before[i]);
            }
        }
    }
}

/// Another dimension behind a list does not change the listing below it.
proof fn lemma_listed_stays(dims: Seq<(u8, u8)>, e: (u8, u8), mask: u16, j: int)
    requires
        0 <= j <= e.0,
    ensures
        listed_dimensions(dims.push(e), mask, j) == listed_dimensions(dims, mask, j),
    decreases j,
{
    if j > 0 {
        lemma_listed_stays(dims, e, mask, j - 1);
        lemma_value_stays(dims, e, j - 1);
    }
}

/// Identifiers that were read are given once for each dimension of the mask.
proof fn lemma_read_dimensions(b: Seq<u8>, p: int, mask: u16, j: int, acc: Seq<(u8, u8)>)
    requires
        0 <= j <= 16,
        acc == listed_dimensions(acc, mask, j),
    ensures
        dimensions_at(b, p, mask, j, acc) matches Ok((d, end)) ==> d == listed_dimensions(
            d,
            mask,
            16,
        ) && p <= end,
    decreases 16 - j,
{
    if j < 16 {
        if mask_bit(mask, j) {
            if p + 1 <= b.len() {
                let e = (j as u8, b[p]);
                lemma_listed_below(acc, mask, j);
                lemma_listed_stays(acc, e, mask, j);
                lemma_value_last(acc, e);
                assert(acc.push(e) =~= listed_dimensions(acc.push(e), mask, j + 1));
                lemma_read_dimensions(b, p + 1, mask, j + 1, acc.push(e));
            }
        } else {
            assert(acc == listed_dimensions(acc, mask, j + 1));
            lemma_read_dimensions(b, p, mask, j + 1, acc);
        }
    }
}

proof fn lemma_read_dependencies(
    b: Seq<u8>,
    p: int,
    mask: u16,
    n: int,
    acc: Seq<LayerDependencyModel>,
)
    requires
        0 <= p,
        0 <= n,
        forall|i: int| 0 <= i < acc.len() ==> (#[trigger] acc[i]).fits(mask),
    ensures
        dependencies_at(b, p, mask, n, acc) matches Ok((v, _)) ==> v.len() == acc.len() + n
            && forall|i: int| 0 <= i < v.len() ==> (#[trigger] v[i]).fits(mask),
    decreases n,
{
    if n > 0 {
        match dependency_at(b, p, mask) {
            Ok((d, end)) => {
                lemma_read_dimensions(b, p + 2 + b[p + 1], mask, 0, Seq::empty());
                assert(d.direct_ref_layer_ids.len() <= 255);
                assert(d.dimension_identifiers == listed_dimensions(
                    d.dimension_identifiers,
                    mask,
                    16,
                ));
                assert(d.fits(mask));
                lemma_read_dependencies(b, end, mask, n - 1, acc.push(d));
            },
            Err(_) => {},
        }
    }
}

proof fn lemma_read_operating_points(b: Seq<u8>, p: int, n: int, acc: Seq<OperatingPointModel>)
    requires
        0 <= p,
        0 <= n,
        forall|i: int| 0 <= i < acc.len() ==> (#[trigger] acc[i]).fits(),
    ensures
        operating_points_at(b, p, n, acc) matches Ok((v, end)) ==> p <= end && v.len() == acc.len()
            + n && forall|i: int| 0 <= i < v.len() ==> (#[trigger] v[i]).fits(),
    decreases n,
{
    if n > 0 {
        match operating_point_at(b, p) {
            Ok((o, end)) => {
                assert(o.fits() && p <= end) by {
                    reveal(operating_point_at);
                }
                lemma_read_operating_points(b, end, n - 1, acc.push(o));
            },
            Err(_) => {},
        }
    }
}

/// What parses as operating points fits its fields.
pub proof fn lemma_parsed_points_fit(b: Seq<u8>)
    ensures
        operating_points_of(b) matches Ok(c) ==> c.fits(),
{
    match operating_points_of(b) {
        Ok(c) => {
            let q = 3 + 12 * (b[2] % 64) as int;
            lemma_read_operating_points(b, q + 2, be16(b, q) as int, Seq::empty());
            let p = operating_points_at(b, q + 2, be16(b, q) as int, Seq::empty())->Ok_0.1;
            lemma_read_dependencies(b, p + 1, be16(b, 0), b[p] as int, Seq::empty());
            assert forall|i: int| 0 <= i < c.ptls.len() implies ptl_fits(#[trigger] c.ptls[i]) by {
                assert(c.ptls[i] == ptl_at(b, 3 + 12 * i));
            }
        },
        Err(_) => {},
    }
}

/// Whatever parses as operating points serializes, and parses again to the same
/// fields; serializing those gives the same bytes.
#[verifier::rlimit(50)]
pub proof fn law_parsed_operating_points(b: Seq<u8>)
    ensures
        operating_points_of(b) matches Ok(c) ==> {
            let again = OperatingPointsModel { raw: c.bytes(), ..c };
            &&& operating_points_of(c.bytes()) == Ok::<OperatingPointsModel, ErrorKind>(again)
            &&& again.bytes() == c.bytes()
        },
{
    match operating_points_of(b) {
        Ok(c) => {
            lemma_parsed_points_fit(b);
            law_operating_points_round_trip(c);
        },
        Err(_) => {},
    }
}

} // verus!
