//! Rows of numbers in bytes.
use crate::bytes::{be16, be32, be64, enc16, enc32, enc64, lemma_be16_enc16, lemma_be32_enc32};
use vstd::prelude::*;

verus! {

/// Four bytes in place are a word.
pub(crate) proof fn lemma_word(b: Seq<u8>, p: int, v: u32)
    requires
        0 <= p,
        p + 4 <= b.len(),
        b[p] == enc32(v)[0],
        b[p + 1] == enc32(v)[1],
        b[p + 2] == enc32(v)[2],
        b[p + 3] == enc32(v)[3],
    ensures
        be32(b, p) == v,
{
    lemma_be32_enc32(Seq::empty(), v, Seq::empty());
    assert(Seq::<u8>::empty() + enc32(v) + Seq::<u8>::empty() =~= enc32(v));
}

/// Eight bytes in place are a double word.
pub(crate) proof fn lemma_long(b: Seq<u8>, p: int, v: u64)
    requires
        0 <= p,
        p + 8 <= b.len(),
        b.subrange(p, p + 8) == enc64(v),
    ensures
        be64(b, p) == v,
{
    let (hi, lo) = ((v / 0x1_0000_0000) as u32, (v % 0x1_0000_0000) as u32);
    let s = b.subrange(p, p + 8);
    assert forall|i: int| 0 <= i < 8 implies #[trigger] b[p + i] == enc64(v)[i] by {
        assert(s[i] == b[p + i]);
    }
    assert(enc64(v)[0] == enc32(hi)[0] && b[p + 0] == enc64(v)[0]);
    assert(enc64(v)[1] == enc32(hi)[1] && b[p + 1] == enc64(v)[1]);
    assert(enc64(v)[2] == enc32(hi)[2] && b[p + 2] == enc64(v)[2]);
    assert(enc64(v)[3] == enc32(hi)[3] && b[p + 3] == enc64(v)[3]);
    assert(enc64(v)[4] == enc32(lo)[0] && b[p + 4] == enc64(v)[4]);
    assert(enc64(v)[5] == enc32(lo)[1] && b[p + 5] == enc64(v)[5]);
    assert(enc64(v)[6] == enc32(lo)[2] && b[p + 6] == enc64(v)[6]);
    assert(enc64(v)[7] == enc32(lo)[3] && b[p + 7] == enc64(v)[7]);
    lemma_word(b, p, hi);
    lemma_word(b, p + 4, lo);
}

/// Two bytes in place are a half word.
pub(crate) proof fn lemma_half(b: Seq<u8>, p: int, v: u16)
    requires
        0 <= p,
        p + 2 <= b.len(),
        b[p] == enc16(v)[0],
        b[p + 1] == enc16(v)[1],
    ensures
        be16(b, p) == v,
{
    lemma_be16_enc16(Seq::empty(), v, Seq::empty());
    assert(Seq::<u8>::empty() + enc16(v) + Seq::<u8>::empty() =~= enc16(v));
}

/// The bytes of `n` rows of `w` bytes each.
pub open spec fn rows(n: nat, w: nat, row: spec_fn(int) -> Seq<u8>) -> Seq<u8> {
    Seq::new(n * w, |i: int| row(i / (w as int))[i % (w as int)])
}

/// A row stands in its place.
pub(crate) proof fn lemma_row(head: Seq<u8>, n: nat, w: nat, row: spec_fn(int) -> Seq<u8>, i: int, j: int)
    requires
        0 <= i < n,
        0 <= j < w,
    ensures
        (head + rows(n, w, row))[head.len() + w * i + j] == row(i)[j],
        0 <= head.len() + w * i + j < (head + rows(n, w, row)).len(),
        (head + rows(n, w, row)).len() == head.len() + n * w,
{
    let k = w * i + j;
    assert(0 <= k < n * w) by (nonlinear_arith)
        requires
            k == w * i + j,
            0 <= i < n,
            0 <= j < w,
    ;
    assert(i * w == w * i) by (nonlinear_arith);
    vstd::arithmetic::div_mod::lemma_fundamental_div_mod_converse(k, w as int, i, j);
}

/// Rows behind their number.
pub(crate) proof fn lemma_counted(n: nat, w: nat, row: spec_fn(int) -> Seq<u8>)
    requires
        n <= u32::MAX,
    ensures
        be32(enc32(n as u32) + rows(n, w, row), 0) == n,
        (enc32(n as u32) + rows(n, w, row)).len() == 4 + n * w,
{
    let b = enc32(n as u32) + rows(n, w, row);
    lemma_word(b, 0, n as u32);
}

/// A word of a row.
pub(crate) proof fn lemma_row_word(head: Seq<u8>, n: nat, w: nat, row: spec_fn(int) -> Seq<u8>, i: int, j: int, v: u32)
    requires
        0 <= i < n,
        0 <= j,
        j + 4 <= w,
        row(i)[j] == enc32(v)[0],
        row(i)[j + 1] == enc32(v)[1],
        row(i)[j + 2] == enc32(v)[2],
        row(i)[j + 3] == enc32(v)[3],
    ensures
        be32(head + rows(n, w, row), head.len() + w * i + j) == v,
{
    lemma_row(head, n, w, row, i, j);
    lemma_row(head, n, w, row, i, j + 1);
    lemma_row(head, n, w, row, i, j + 2);
    lemma_row(head, n, w, row, i, j + 3);
    lemma_word(head + rows(n, w, row), head.len() + w * i + j, v);
}

/// A row of three words.
pub(crate) proof fn lemma_row_words(head: Seq<u8>, n: nat, row: spec_fn(int) -> Seq<u8>, i: int, a: u32, b: u32, c: u32)
    requires
        0 <= i < n,
        row(i) == enc32(a) + enc32(b) + enc32(c),
    ensures
        be32(head + rows(n, 12, row), head.len() + 12 * i) == a,
        be32(head + rows(n, 12, row), head.len() + 12 * i + 4) == b,
        be32(head + rows(n, 12, row), head.len() + 12 * i + 8) == c,
{
    lemma_row_word(head, n, 12, row, i, 0, a);
    lemma_row_word(head, n, 12, row, i, 4, b);
    lemma_row_word(head, n, 12, row, i, 8, c);
}

/// The bytes `s` stand in `b` at `p`.
#[verifier::opaque]
pub open spec fn stands(b: Seq<u8>, p: int, s: Seq<u8>) -> bool {
    0 <= p && p + s.len() <= b.len() && b.subrange(p, p + s.len()) == s
}

/// Bytes stand where they were put.
pub(crate) proof fn lemma_stands(a: Seq<u8>, s: Seq<u8>, c: Seq<u8>)
    ensures
        stands(a + s + c, a.len() as int, s),
        (a + s + c).len() == a.len() + s.len() + c.len(),
{
    reveal(stands);
    assert((a + s + c).subrange(a.len() as int, a.len() as int + s.len()) =~= s);
}

/// The parts of bytes stand one behind the other.
pub(crate) proof fn lemma_parts(b: Seq<u8>, p: int, x: Seq<u8>, y: Seq<u8>)
    requires
        stands(b, p, x + y),
    ensures
        stands(b, p, x),
        stands(b, p + x.len(), y),
        (x + y).len() == x.len() + y.len(),
        0 <= p,
        p + x.len() + y.len() <= b.len(),
{
    reveal(stands);
    let s = b.subrange(p, p + (x + y).len());
    assert forall|i: int| 0 <= i < x.len() implies #[trigger] b[p + i] == x[i] by {
        assert(s[i] == (x + y)[i]);
    }
    assert(b.subrange(p, p + x.len()) =~= x);
    let t = b.subrange(p + x.len(), p + x.len() + y.len());
    assert forall|i: int| 0 <= i < y.len() implies #[trigger] t[i] == y[i] by {
        assert(s[x.len() + i] == (x + y)[x.len() + i]);
        assert(t[i] == b[p + (x.len() + i)]);
    }
    assert(t =~= y);
}

/// A half word that stands at `p`.
pub(crate) proof fn lemma_stands_half(b: Seq<u8>, p: int, v: u16)
    requires
        stands(b, p, enc16(v)),
    ensures
        be16(b, p) == v,
        enc16(v).len() == 2,
        0 <= p,
        p + 2 <= b.len(),
{
    reveal(stands);
    let s = b.subrange(p, p + 2);
    assert(s[0] == enc16(v)[0] && s[1] == enc16(v)[1]);
    lemma_half(b, p, v);
}

/// A word that stands at `p`.
pub(crate) proof fn lemma_stands_word(b: Seq<u8>, p: int, v: u32)
    requires
        stands(b, p, enc32(v)),
    ensures
        be32(b, p) == v,
        enc32(v).len() == 4,
        0 <= p,
        p + 4 <= b.len(),
{
    reveal(stands);
    let s = b.subrange(p, p + 4);
    assert(s[0] == enc32(v)[0] && s[1] == enc32(v)[1] && s[2] == enc32(v)[2] && s[3] == enc32(v)[3]);
    lemma_word(b, p, v);
}

/// A double word that stands at `p`.
pub(crate) proof fn lemma_stands_long(b: Seq<u8>, p: int, v: u64)
    requires
        stands(b, p, enc64(v)),
    ensures
        be64(b, p) == v,
        enc64(v).len() == 8,
        0 <= p,
        p + 8 <= b.len(),
{
    reveal(stands);
    lemma_long(b, p, v);
}

/// A byte that stands at `p`.
pub(crate) proof fn lemma_stands_byte(b: Seq<u8>, p: int, v: u8)
    requires
        stands(b, p, seq![v]),
    ensures
        b[p] == v,
        0 <= p < b.len(),
{
    reveal(stands);
    assert(b.subrange(p, p + 1)[0] == v);
}

/// Nothing stands anywhere inside.
pub(crate) proof fn lemma_stands_inside(b: Seq<u8>, p: int, s: Seq<u8>)
    requires
        stands(b, p, s),
    ensures
        0 <= p,
        p + s.len() <= b.len(),
{
    reveal(stands);
}

} // verus!
