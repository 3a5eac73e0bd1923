//! Serialize helpers used by the writer side.
use crate::boxes::{fourcc_at, full_box, header_at, payload_of, user_type_at, BoxHeader, FourCc};
use crate::bytes::{be32, be64, enc24, enc32, enc64, lemma_read32, lemma_read64, put, put24, put32, put64};
use crate::tags;
use vstd::prelude::*;

verus! {

/// The `largesize` of a box whose body has `len` bytes.
pub open spec fn large_size(len: nat) -> u64 {
    (if len + 16 <= u64::MAX {
        (len + 16) as int
    } else {
        u64::MAX as int
    }) as u64
}

/// A box around `body`: the header, with a `largesize` when the box would
/// exceed `u32::MAX` bytes, then the body.
pub open spec fn box_bytes(box_type: FourCc, body: Seq<u8>) -> Seq<u8> {
    if body.len() + 8 > u32::MAX {
        enc32(1) + box_type@ + enc64(large_size(body.len())) + body
    } else {
        enc32((body.len() + 8) as u32) + box_type@ + body
    }
}

/// The payload of a FullBox: `version + flags(24) + body`.
pub open spec fn full_body(version: u8, flags: u32, body: Seq<u8>) -> Seq<u8> {
    seq![version] + enc24(flags) + body
}

/// Append `size(32) + type(32) + body` to `out`, using a `largesize`
/// header when the box would exceed `u32::MAX` bytes.
pub fn push_box(out: &mut Vec<u8>, box_type: &FourCc, body: &[u8])
    ensures
        final(out)@ == old(out)@ + box_bytes(*box_type, body@),
{
    let n: u64 = body.len() as u64;
    if n > u32::MAX as u64 - 8 {
        put32(out, 1);
        put(out, box_type.as_slice());
        put64(out, n.saturating_add(16));
    } else {
        put32(out, (n + 8) as u32);
        put(out, box_type.as_slice());
    }
    put(out, body);
    proof {
        assert(out@ =~= old(out)@ + box_bytes(*box_type, body@));
    }
}

/// Append a FullBox: `size + type + version + flags(24) + body`.
pub fn push_full_box(out: &mut Vec<u8>, box_type: &FourCc, version: u8, flags: u32, body: &[u8])
    ensures
        final(out)@ == old(out)@ + box_bytes(*box_type, full_body(version, flags, body@)),
{
    let mut b: Vec<u8> = Vec::new();
    b.push(version);
    put24(&mut b, flags);
    put(&mut b, body);
    proof {
        assert(b@ =~= full_body(version, flags, body@));
    }
    push_box(out, box_type, b.as_slice());
}

/// Build a box as a standalone byte vector.
pub fn boxed(box_type: &FourCc, body: &[u8]) -> (v: Vec<u8>)
    ensures
        v@ == box_bytes(*box_type, body@),
{
    let mut v: Vec<u8> = Vec::new();
    push_box(&mut v, box_type, body);
    proof {
        assert(v@ =~= box_bytes(*box_type, body@));
    }
    v
}

/// Build a FullBox as a standalone byte vector.
pub fn full_boxed(box_type: &FourCc, version: u8, flags: u32, body: &[u8]) -> (v: Vec<u8>)
    ensures
        v@ == box_bytes(*box_type, full_body(version, flags, body@)),
{
    let mut v: Vec<u8> = Vec::new();
    push_full_box(&mut v, box_type, version, flags, body);
    proof {
        assert(v@ =~= box_bytes(*box_type, full_body(version, flags, body@)));
    }
    v
}

/// What a header says of a box of type `t` whose fields end at `q`.
pub open spec fn describes(
    h: Option<BoxHeader>,
    s: Seq<u8>,
    p: int,
    t: FourCc,
    user_type: Option<[u8; 16]>,
    body: Seq<u8>,
    end: int,
) -> bool {
    h matches Some(h) && {
        &&& h.box_type == t
        &&& h.user_type == user_type
        &&& h.start == p
        &&& h.end_at() == end
        &&& payload_of(s, h) == body
    }
}

proof fn lemma_header(
    s: Seq<u8>,
    p: int,
    fixed: int,
    t: FourCc,
    user_type: Option<[u8; 16]>,
    body: Seq<u8>,
    end: int,
)
    requires
        s.len() <= usize::MAX,
        0 <= p,
        end <= s.len(),
        fixed == 8 || fixed == 16,
        fixed == 8 ==> be32(s, p) == end - p && be32(s, p) != 1,
        fixed == 16 ==> be32(s, p) == 1 && be64(s, p + 8) == end - p,
        fourcc_at(s, p + 4) == t,
        (t == tags::UUID) == (user_type is Some),
        user_type matches Some(u) ==> p + fixed + 16 <= end && user_type_at(s, p + fixed) == u
            && s.subrange(p + fixed + 16, end) == body,
        user_type is None ==> p + fixed <= end && s.subrange(p + fixed, end) == body,
    ensures
        describes(header_at(s, p), s, p, t, user_type, body, end),
{
    reveal(header_at);
}

proof fn lemma_front(a: Seq<u8>, t: FourCc, body: Seq<u8>, c: Seq<u8>)
    ensures
        ({
            let s = a + box_bytes(t, body) + c;
            let p = a.len() as int;
            let fixed: int = if body.len() + 8 > u32::MAX {
                16
            } else {
                8
            };
            &&& box_bytes(t, body).len() == fixed + body.len()
            &&& fourcc_at(s, p + 4) == t
            &&& s.subrange(p + fixed, p + fixed + body.len()) == body
            &&& fixed == 8 ==> be32(s, p) == body.len() + 8
            &&& fixed == 16 ==> be32(s, p) == 1 && be64(s, p + 8) == large_size(body.len())
        }),
{
    let s = a + box_bytes(t, body) + c;
    let p = a.len() as int;
    assert(t@.len() == 4);
    if body.len() + 8 > u32::MAX {
        let b = enc32(1) + t@ + enc64(large_size(body.len())) + body;
        assert(s == a + b + c);
        assert(s.subrange(p, p + 4) =~= enc32(1));
        lemma_read32(s, p, 1);
        assert(s.subrange(p + 8, p + 16) =~= enc64(large_size(body.len())));
        lemma_read64(s, p + 8, large_size(body.len()));
        assert(fourcc_at(s, p + 4) =~= t);
        assert(s.subrange(p + 16, p + 16 + body.len()) =~= body);
    } else {
        let n = (body.len() + 8) as u32;
        let b = enc32(n) + t@ + body;
        assert(s == a + b + c);
        assert(s.subrange(p, p + 4) =~= enc32(n));
        lemma_read32(s, p, n);
        assert(fourcc_at(s, p + 4) =~= t);
        assert(s.subrange(p + 8, p + 8 + body.len()) =~= body);
    }
}

/// Reading a serialized box back, wherever it stands in a buffer, gives its type
/// and its body; the next box starts behind it. (A `uuid` box carries its
/// extended type at the head of the body: see [`law_uuid_box_round_trip`].)
#[verifier::rlimit(50)]
pub proof fn law_box_round_trip(a: Seq<u8>, t: FourCc, body: Seq<u8>, c: Seq<u8>)
    requires
        t != tags::UUID,
        (a + box_bytes(t, body) + c).len() <= usize::MAX,
    ensures
        describes(
            header_at(a + box_bytes(t, body) + c, a.len() as int),
            a + box_bytes(t, body) + c,
            a.len() as int,
            t,
            None,
            body,
            (a.len() + box_bytes(t, body).len()) as int,
        ),
{
    let s = a + box_bytes(t, body) + c;
    let fixed: int = if body.len() + 8 > u32::MAX {
        16
    } else {
        8
    };
    lemma_front(a, t, body, c);
    lemma_header(s, a.len() as int, fixed, t, None, body, a.len() + fixed + body.len());
}

/// Reading a serialized `uuid` box back gives its extended type and the rest of
/// its body.
#[verifier::rlimit(50)]
pub proof fn law_uuid_box_round_trip(a: Seq<u8>, user_type: [u8; 16], body: Seq<u8>, c: Seq<u8>)
    requires
        (a + box_bytes(tags::UUID, user_type@ + body) + c).len() <= usize::MAX,
    ensures
        describes(
            header_at(a + box_bytes(tags::UUID, user_type@ + body) + c, a.len() as int),
            a + box_bytes(tags::UUID, user_type@ + body) + c,
            a.len() as int,
            tags::UUID,
            Some(user_type),
            body,
            (a.len() + box_bytes(tags::UUID, user_type@ + body).len()) as int,
        ),
{
    let all = user_type@ + body;
    let s = a + box_bytes(tags::UUID, all) + c;
    let fixed: int = if all.len() + 8 > u32::MAX {
        16
    } else {
        8
    };
    let p = a.len() as int;
    let q = p + fixed;
    lemma_front(a, tags::UUID, all, c);
    assert(user_type@.len() == 16);
    let x = s.subrange(q, q + all.len());
    assert forall|i: int| 0 <= i < 16 implies #[trigger] s[q + i] == user_type[i] by {
        assert(x[i] == s[q + i]);
        assert(all[i] == user_type@[i]);
    }
    assert(user_type_at(s, q) =~= user_type);
    assert(s.subrange(q + 16, q + all.len()) =~= x.subrange(16, all.len() as int));
    assert(x.subrange(16, all.len() as int) =~= body);
    lemma_header(s, p, fixed, tags::UUID, Some(user_type), body, q + all.len());
}

/// Reading the payload of a serialized FullBox back gives its version, the 24
/// bits of its flags and its body.
#[verifier::rlimit(50)]
pub proof fn law_full_box_round_trip(version: u8, flags: u32, body: Seq<u8>)
    ensures
        full_box(full_body(version, flags, body)) == Some(
            (version, (flags % 0x100_0000) as u32, body),
        ),
{
    let p = full_body(version, flags, body);
    crate::bytes::lemma_be24_enc24(seq![version], flags, body);
    assert(p[0] == version);
    assert(p.subrange(4, p.len() as int) =~= body);
}

} // verus!
