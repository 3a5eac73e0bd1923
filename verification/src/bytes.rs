//! Big-endian integers in byte sequences.
use vstd::prelude::*;

pub mod rows;

verus! {

/// The big-endian `u16` at `p`.
pub open spec fn be16(s: Seq<u8>, p: int) -> u16 {
    (s[p] * 0x100 + s[p + 1]) as u16
}

/// The big-endian 24-bit integer at `p`.
pub open spec fn be24(s: Seq<u8>, p: int) -> u32 {
    (s[p] * 0x1_0000 + s[p + 1] * 0x100 + s[p + 2]) as u32
}

/// The big-endian `u32` at `p`.
pub open spec fn be32(s: Seq<u8>, p: int) -> u32 {
    (s[p] * 0x100_0000 + s[p + 1] * 0x1_0000 + s[p + 2] * 0x100 + s[p + 3]) as u32
}

/// The big-endian `u64` at `p`.
pub open spec fn be64(s: Seq<u8>, p: int) -> u64 {
    (be32(s, p) * 0x1_0000_0000 + be32(s, p + 4)) as u64
}

/// Two's complement reading of a `u16`.
pub open spec fn signed16(v: u16) -> i16 {
    (if v < 0x8000 {
        v as int
    } else {
        v - 0x1_0000
    }) as i16
}

/// Two's complement reading of a `u32`.
pub open spec fn signed32(v: u32) -> i32 {
    (if v < 0x8000_0000 {
        v as int
    } else {
        v - 0x1_0000_0000
    }) as i32
}

/// Two's complement reading of a `u64`.
pub open spec fn signed64(v: u64) -> i64 {
    (if v < 0x8000_0000_0000_0000 {
        v as int
    } else {
        v - 0x1_0000_0000_0000_0000
    }) as i64
}

/// Two's complement coding of an `i32`.
pub open spec fn unsigned32(v: i32) -> u32 {
    (if v >= 0 {
        v as int
    } else {
        v + 0x1_0000_0000
    }) as u32
}

/// Two's complement coding of an `i16`.
pub open spec fn unsigned16(v: i16) -> u16 {
    (if v >= 0 {
        v as int
    } else {
        v + 0x1_0000
    }) as u16
}

/// Big-endian bytes of a `u16`.
pub open spec fn enc16(v: u16) -> Seq<u8> {
    seq![(v / 0x100) as u8, (v % 0x100) as u8]
}

/// Big-endian bytes of the low 24 bits of `v`.
pub open spec fn enc24(v: u32) -> Seq<u8> {
    seq![(v / 0x1_0000 % 0x100) as u8, (v / 0x100 % 0x100) as u8, (v % 0x100) as u8]
}

/// Big-endian bytes of a `u32`.
pub open spec fn enc32(v: u32) -> Seq<u8> {
    seq![
        (v / 0x100_0000) as u8,
        (v / 0x1_0000 % 0x100) as u8,
        (v / 0x100 % 0x100) as u8,
        (v % 0x100) as u8,
    ]
}

/// Big-endian bytes of a `u64`.
pub open spec fn enc64(v: u64) -> Seq<u8> {
    enc32((v / 0x1_0000_0000) as u32) + enc32((v % 0x1_0000_0000) as u32)
}

/// Reading back what was written gives the same `u16`.
pub broadcast proof fn lemma_be16_enc16(a: Seq<u8>, v: u16, b: Seq<u8>)
    ensures
        #![trigger a + enc16(v) + b]
        be16(a + enc16(v) + b, a.len() as int) == v,
{
    let s = a + enc16(v) + b;
    assert(s[a.len() as int] == enc16(v)[0]);
    assert(s[a.len() as int + 1] == enc16(v)[1]);
}

/// Reading back what was written gives the low 24 bits.
pub proof fn lemma_be24_enc24(a: Seq<u8>, v: u32, b: Seq<u8>)
    ensures
        be24(a + enc24(v) + b, a.len() as int) == v % 0x100_0000,
{
    let s = a + enc24(v) + b;
    assert(s[a.len() as int] == enc24(v)[0]);
    assert(s[a.len() as int + 1] == enc24(v)[1]);
    assert(s[a.len() as int + 2] == enc24(v)[2]);
}

/// Reading back what was written gives the same `u32`.
pub proof fn lemma_be32_enc32(a: Seq<u8>, v: u32, b: Seq<u8>)
    ensures
        be32(a + enc32(v) + b, a.len() as int) == v,
{
    let s = a + enc32(v) + b;
    assert(s[a.len() as int] == enc32(v)[0]);
    assert(s[a.len() as int + 1] == enc32(v)[1]);
    assert(s[a.len() as int + 2] == enc32(v)[2]);
    assert(s[a.len() as int + 3] == enc32(v)[3]);
}

/// Reading where the bytes of a `u16` stand gives it.
pub proof fn lemma_read16(s: Seq<u8>, p: int, v: u16)
    requires
        0 <= p,
        p + 2 <= s.len(),
        s.subrange(p, p + 2) == enc16(v),
    ensures
        be16(s, p) == v,
{
    let x = s.subrange(p, p + 2);
    assert(s[p] == x[0] && s[p + 1] == x[1]);
}

/// Reading where the bytes of a `u32` stand gives it.
pub proof fn lemma_read32(s: Seq<u8>, p: int, v: u32)
    requires
        0 <= p,
        p + 4 <= s.len(),
        s.subrange(p, p + 4) == enc32(v),
    ensures
        be32(s, p) == v,
{
    let x = s.subrange(p, p + 4);
    assert(s[p] == x[0] && s[p + 1] == x[1] && s[p + 2] == x[2] && s[p + 3] == x[3]);
}

/// Reading where the bytes of a `u64` stand gives it.
pub proof fn lemma_read64(s: Seq<u8>, p: int, v: u64)
    requires
        0 <= p,
        p + 8 <= s.len(),
        s.subrange(p, p + 8) == enc64(v),
    ensures
        be64(s, p) == v,
{
    let x = s.subrange(p, p + 8);
    assert(s.subrange(p, p + 4) =~= x.subrange(0, 4));
    assert(s.subrange(p + 4, p + 8) =~= x.subrange(4, 8));
    assert(x.subrange(0, 4) =~= enc32((v / 0x1_0000_0000) as u32));
    assert(x.subrange(4, 8) =~= enc32((v % 0x1_0000_0000) as u32));
    lemma_read32(s, p, (v / 0x1_0000_0000) as u32);
    lemma_read32(s, p + 4, (v % 0x1_0000_0000) as u32);
}

/// Concatenation is associative.
pub proof fn lemma_assoc(a: Seq<u8>, b: Seq<u8>, c: Seq<u8>)
    ensures
        a + b + c == a + (b + c),
{
    assert(a + b + c =~= a + (b + c));
}

/// Reads a big-endian `u16`.
pub fn get16(b: &[u8], p: usize) -> (v: u16)
    requires
        p + 2 <= b@.len(),
    ensures
        v == be16(b@, p as int),
{
    b[p] as u16 * 0x100 + b[p + 1] as u16
}

/// Reads a big-endian 24-bit integer.
pub fn get24(b: &[u8], p: usize) -> (v: u32)
    requires
        p + 3 <= b@.len(),
    ensures
        v == be24(b@, p as int),
{
    b[p] as u32 * 0x1_0000 + b[p + 1] as u32 * 0x100 + b[p + 2] as u32
}

/// Reads a big-endian `u32`.
pub fn get32(b: &[u8], p: usize) -> (v: u32)
    requires
        p + 4 <= b@.len(),
    ensures
        v == be32(b@, p as int),
{
    b[p] as u32 * 0x100_0000 + b[p + 1] as u32 * 0x1_0000 + b[p + 2] as u32 * 0x100 + b[p + 3] as u32
}

/// Reads a big-endian `u64`.
pub fn get64(b: &[u8], p: usize) -> (v: u64)
    requires
        p + 8 <= b@.len(),
    ensures
        v == be64(b@, p as int),
{
    assert(b.len() == b@.len());
    get32(b, p) as u64 * 0x1_0000_0000 + get32(b, p + 4) as u64
}

/// Two's complement reading of a `u16`.
pub fn to_i16(v: u16) -> (r: i16)
    ensures
        r == signed16(v),
{
    if v < 0x8000 {
        v as i16
    } else {
        (v as i32 - 0x1_0000) as i16
    }
}

/// Two's complement reading of a `u32`.
pub fn to_i32(v: u32) -> (r: i32)
    ensures
        r == signed32(v),
{
    if v < 0x8000_0000 {
        v as i32
    } else {
        (v as i64 - 0x1_0000_0000) as i32
    }
}

/// Two's complement reading of a `u64`.
pub fn to_i64(v: u64) -> (r: i64)
    ensures
        r == signed64(v),
{
    if v < 0x8000_0000_0000_0000 {
        v as i64
    } else {
        (v as i128 - 0x1_0000_0000_0000_0000) as i64
    }
}

/// Two's complement coding of an `i32`.
pub fn from_i32(v: i32) -> (r: u32)
    ensures
        r == unsigned32(v),
{
    if v >= 0 {
        v as u32
    } else {
        (v as i64 + 0x1_0000_0000) as u32
    }
}

/// Two's complement coding of an `i16`.
pub fn from_i16(v: i16) -> (r: u16)
    ensures
        r == unsigned16(v),
{
    if v >= 0 {
        v as u16
    } else {
        (v as i32 + 0x1_0000) as u16
    }
}

/// Appends a slice.
pub fn put(out: &mut Vec<u8>, b: &[u8])
    ensures
        final(out)@ == old(out)@ + b@,
{
    out.extend_from_slice(b);
    proof {
        assert(out@ =~= old(out)@ + b@);
    }
}

/// Appends a big-endian `u16`.
pub fn put16(out: &mut Vec<u8>, v: u16)
    ensures
        final(out)@ == old(out)@ + enc16(v),
{
    out.push((v / 0x100) as u8);
    out.push((v % 0x100) as u8);
    proof {
        assert(out@ =~= old(out)@ + enc16(v));
    }
}

/// Appends the low 24 bits of `v`, big-endian.
pub fn put24(out: &mut Vec<u8>, v: u32)
    ensures
        final(out)@ == old(out)@ + enc24(v),
{
    out.push((v / 0x1_0000 % 0x100) as u8);
    out.push((v / 0x100 % 0x100) as u8);
    out.push((v % 0x100) as u8);
    proof {
        assert(out@ =~= old(out)@ + enc24(v));
    }
}

/// Appends a big-endian `u32`.
pub fn put32(out: &mut Vec<u8>, v: u32)
    ensures
        final(out)@ == old(out)@ + enc32(v),
{
    out.push((v / 0x100_0000) as u8);
    out.push((v / 0x1_0000 % 0x100) as u8);
    out.push((v / 0x100 % 0x100) as u8);
    out.push((v % 0x100) as u8);
    proof {
        assert(out@ =~= old(out)@ + enc32(v));
    }
}

/// Appends a big-endian `u64`.
pub fn put64(out: &mut Vec<u8>, v: u64)
    ensures
        final(out)@ == old(out)@ + enc64(v),
{
    put32(out, (v / 0x1_0000_0000) as u32);
    put32(out, (v % 0x1_0000_0000) as u32);
    proof {
        assert(out@ =~= old(out)@ + enc64(v));
    }
}

/// The contents of a list of slices.
pub open spec fn views(v: Seq<&[u8]>) -> Seq<Seq<u8>> {
    Seq::new(v.len(), |i: int| v[i]@)
}

/// The contents of a list of byte vectors.
pub open spec fn lists(v: Seq<Vec<u8>>) -> Seq<Seq<u8>> {
    Seq::new(v.len(), |i: int| v[i]@)
}

/// A copy of a list of byte vectors.
pub fn copy_lists(v: &Vec<Vec<u8>>) -> (r: Vec<Vec<u8>>)
    ensures
        lists(r@) == lists(v@),
{
    let mut r: Vec<Vec<u8>> = Vec::new();
    for i in 0..v.len()
        invariant
            r@.len() == i,
            forall|j: int| 0 <= j < i ==> (#[trigger] r@[j])@ == v@[j]@,
    {
        r.push(copy_of(v[i].as_slice()));
    }
    proof {
        assert(lists(r@) =~= lists(v@));
    }
    r
}

/// A copy of a list of plain values.
pub fn copy_vec<T: Copy>(v: &Vec<T>) -> (r: Vec<T>)
    ensures
        r@ == v@,
{
    vstd::slice::slice_to_vec(v.as_slice())
}

/// A copy of a list whose elements are cloned one by one.
pub fn clone_vec<T: Clone + DeepView>(v: &Vec<T>) -> (r: Vec<T>)
    requires
        forall|a: T, b: T| #[trigger] cloned(a, b) ==> b.deep_view() == a.deep_view(),
    ensures
        r.deep_view() == v.deep_view(),
{
    let r: Vec<T> = v.clone();
    proof {
        assert forall|i: int| 0 <= i < v@.len() implies #[trigger] r@[i].deep_view()
            == v@[i].deep_view() by {
            assert(cloned(v@[i], r@[i]));
        }
        assert(r.deep_view() =~= v.deep_view());
    }
    r
}

/// The text of an optional string.
pub open spec fn option_text(s: Option<String>) -> Option<Seq<char>> {
    match s {
        Some(t) => Some(t@),
        None => None,
    }
}

/// The contents of an optional byte vector.
pub open spec fn option_bytes(v: Option<Vec<u8>>) -> Option<Seq<u8>> {
    match v {
        Some(b) => Some(b@),
        None => None,
    }
}

/// A copy of a slice.
pub fn copy_of(b: &[u8]) -> (v: Vec<u8>)
    ensures
        v@ == b@,
{
    vstd::slice::slice_to_vec(b)
}

/// The bytes of `b` from `i` up to `j`.
pub fn span<'a>(b: &'a [u8], i: usize, j: usize) -> (r: &'a [u8])
    requires
        i <= j <= b@.len(),
    ensures
        r@ == b@.subrange(i as int, j as int),
{
    vstd::slice::slice_subrange(b, i, j)
}

/// Whether two slices hold the same bytes.
pub fn same(a: &[u8], b: &[u8]) -> (r: bool)
    ensures
        r == (a@ == b@),
{
    if a.len() != b.len() {
        return false;
    }
    for i in 0..a.len()
        invariant
            a@.len() == b@.len(),
            forall|j: int| 0 <= j < i ==> a@[j] == b@[j],
    {
        if a[i] != b[i] {
            return false;
        }
    }
    proof {
        assert(a@ =~= b@);
    }
    true
}

} // verus!
