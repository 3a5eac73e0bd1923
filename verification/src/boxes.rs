//! ISO Base Media File Format box reader (ISO/IEC 14496-12 §4.2).
//!
//! A box is `size(32) + type(32)`, optionally followed by `largesize(64)`
//! when `size == 1`, or extending to the end of the enclosing buffer
//! when `size == 0`; `uuid` boxes carry a 16-byte extended type after
//! the header. A `FullBox` (§4.2.2) prefixes its payload with
//! `version(8) + flags(24)`.
//!
//! Everything here works on in-memory slices: the item location model
//! (`iloc`) is expressed in absolute file offsets that slice indexing serves
//! directly.
use crate::bytes::{be16, be24, be32, be64, get16, get24, get32, get64, signed16, signed32, span, to_i16, to_i32};
use crate::error::{ErrorKind, HeifError, Result};
use crate::tags;
use crate::text::{concat, decimal, hex_char, hex_digit};
use vstd::prelude::*;

pub mod write;

verus! {

/// Four-character box / brand / item type, compared bytewise.
pub type FourCc = [u8; 4];

/// The four-character code at `p`.
pub open spec fn fourcc_at(s: Seq<u8>, p: int) -> FourCc {
    [s[p], s[p + 1], s[p + 2], s[p + 3]]
}

/// Whether two four-character codes are the same.
pub fn fourcc_eq(a: &FourCc, b: &FourCc) -> (r: bool)
    ensures
        r == (*a == *b),
{
    let r: bool = a[0] == b[0] && a[1] == b[1] && a[2] == b[2] && a[3] == b[3];
    proof {
        if r {
            assert(*a =~= *b);
        }
    }
    r
}

/// Rendering of one byte of a four-character code.
pub open spec fn code_char(b: u8) -> Seq<char> {
    if 0x20 <= b < 0x7f {
        seq![b as char]
    } else {
        seq!['\\', 'x', hex_char((b / 16) as nat), hex_char((b % 16) as nat)]
    }
}

/// Rendering of a four-character code.
pub open spec fn fourcc_text(t: FourCc) -> Seq<char> {
    code_char(t[0]) + code_char(t[1]) + code_char(t[2]) + code_char(t[3])
}

fn push_code_char(s: &mut String, b: u8)
    ensures
        final(s)@ == old(s)@ + code_char(b),
{
    if 0x20 <= b && b < 0x7f {
        s.push(b as char);
    } else {
        s.push('\\');
        s.push('x');
        s.push(hex_digit(b / 16));
        s.push(hex_digit(b % 16));
    }
    proof {
        assert(s@ =~= old(s)@ + code_char(b));
    }
}

/// Render a four-character code for diagnostics (bytes outside printable
/// ASCII are escaped as `\xNN`).
pub fn fourcc_str(t: &FourCc) -> (s: String)
    ensures
        s@ == fourcc_text(*t),
{
    let mut s: String = String::new();
    push_code_char(&mut s, t[0]);
    push_code_char(&mut s, t[1]);
    push_code_char(&mut s, t[2]);
    push_code_char(&mut s, t[3]);
    proof {
        assert(s@ =~= fourcc_text(*t));
    }
    s
}

/// One parsed box header plus the payload span inside the parent slice.
#[derive(Clone, Copy, Debug, PartialEq, Eq)]
pub struct BoxHeader {
    /// Box type (`ftyp`, `meta`, …).
    pub box_type: FourCc,
    /// Extended type of a `uuid` box, when present.
    pub user_type: Option<[u8; 16]>,
    /// Offset of the first header byte inside the parent slice.
    pub start: usize,
    /// Offset of the first payload byte inside the parent slice.
    pub payload_start: usize,
    /// Payload length in bytes (header bytes excluded).
    pub payload_len: usize,
}

impl BoxHeader {
    /// Offset one past the last payload byte.
    pub open spec fn end_at(self) -> int {
        self.payload_start + self.payload_len
    }

    /// The header lies before its payload, and the payload inside a buffer of
    /// `len` bytes.
    pub open spec fn inside(self, len: nat) -> bool {
        self.start + 8 <= self.payload_start && self.end_at() <= len
    }

    /// Offset one past the last payload byte.
    pub fn end(&self) -> (r: usize)
        requires
            self.end_at() <= usize::MAX,
        ensures
            r == self.end_at(),
    {
        self.payload_start + self.payload_len
    }

    /// Total box size including the header.
    pub fn total_len(&self) -> (r: usize)
        requires
            self.start <= self.end_at() <= usize::MAX,
        ensures
            r == self.end_at() - self.start,
    {
        self.end() - self.start
    }

    /// Length of the header bytes.
    pub fn header_len(&self) -> (r: usize)
        requires
            self.start <= self.payload_start,
        ensures
            r == self.payload_start - self.start,
    {
        self.payload_start - self.start
    }
}

/// The total size a box header at `start` declares, `None` when it is out of
/// range or cut off.
pub open spec fn declared_size(buf: Seq<u8>, start: int) -> Option<int> {
    let remaining = buf.len() - start;
    let size = be32(buf, start);
    if size == 0 {
        Some(remaining)
    } else if size == 1 {
        if remaining >= 16 && 16 <= be64(buf, start + 8) <= remaining {
            Some(be64(buf, start + 8) as int)
        } else {
            None
        }
    } else if 8 <= size <= remaining {
        Some(size as int)
    } else {
        None
    }
}

/// Bytes the size and type fields of a box header take.
pub open spec fn size_type_len(buf: Seq<u8>, start: int) -> int {
    if be32(buf, start) == 1 {
        16
    } else {
        8
    }
}

/// The sixteen bytes at `p`.
pub open spec fn user_type_at(s: Seq<u8>, p: int) -> [u8; 16] {
    [
        s[p],
        s[p + 1],
        s[p + 2],
        s[p + 3],
        s[p + 4],
        s[p + 5],
        s[p + 6],
        s[p + 7],
        s[p + 8],
        s[p + 9],
        s[p + 10],
        s[p + 11],
        s[p + 12],
        s[p + 13],
        s[p + 14],
        s[p + 15],
    ]
}

/// The box header at `start`, `None` when the bytes there are no box that fits
/// the buffer.
#[verifier::opaque]
pub open spec fn header_at(buf: Seq<u8>, start: int) -> Option<BoxHeader> {
    if start < 0 || start + 8 > buf.len() {
        None
    } else {
        let t = fourcc_at(buf, start + 4);
        let fixed = size_type_len(buf, start);
        let header = if t == tags::UUID {
            fixed + 16
        } else {
            fixed
        };
        match declared_size(buf, start) {
            None => None,
            Some(total) => if header > total {
                None
            } else {
                Some(
                    BoxHeader {
                        box_type: t,
                        user_type: if t == tags::UUID {
                            Some(user_type_at(buf, start + fixed))
                        } else {
                            None
                        },
                        start: start as usize,
                        payload_start: (start + header) as usize,
                        payload_len: (total - header) as usize,
                    },
                )
            },
        }
    }
}

/// A box header that was read lies inside its buffer and leaves room for the
/// next one to be found after it.
pub broadcast proof fn lemma_header_inside(buf: Seq<u8>, start: int)
    requires
        buf.len() <= usize::MAX,
    ensures
        #[trigger] header_at(buf, start) matches Some(h) ==> h.inside(buf.len()) && h.start == start,
{
    reveal(header_at);
}

/// The payload a header spans.
pub open spec fn payload_of(buf: Seq<u8>, h: BoxHeader) -> Seq<u8> {
    buf.subrange(h.payload_start as int, h.end_at())
}

fn out_of_range(box_type: &FourCc, what: &str, size: u64, start: usize, remaining: usize) -> (e:
    HeifError)
    ensures
        e.kind() == ErrorKind::Invalid,
{
    let t: String = fourcc_str(box_type);
    let s: String = decimal(size);
    let at: String = decimal(start as u64);
    let left: String = decimal(remaining as u64);
    HeifError::invalid(
        concat(
            &[
                "box '",
                t.as_str(),
                "' ",
                what,
                " ",
                s.as_str(),
                " out of range at offset ",
                at.as_str(),
                " (",
                left.as_str(),
                " bytes remain)",
            ],
        ),
    )
}

fn at_offset(before: &str, start: usize, after: &str) -> (e: HeifError)
    ensures
        e.kind() == ErrorKind::Invalid,
{
    let at: String = decimal(start as u64);
    HeifError::invalid(concat(&[before, at.as_str(), after]))
}

/// Parse the box header starting at `start` inside `buf`.
pub fn parse_box_header(buf: &[u8], start: usize) -> (r: Result<BoxHeader>)
    ensures
        match r {
            Ok(h) => header_at(buf@, start as int) == Some(h),
            Err(e) => e.kind() == ErrorKind::Invalid && header_at(buf@, start as int) is None,
        },
{
    proof {
        reveal(header_at);
        assert(buf.len() == buf@.len());
    }
    let hdr_end: usize = match start.checked_add(8) {
        Some(v) => v,
        None => {
            return Err(HeifError::invalid("box header offset overflow"));
        },
    };
    if hdr_end > buf.len() {
        return Err(at_offset("truncated box header at offset ", start, ""));
    }
    let size32: u32 = get32(buf, start);
    let box_type: FourCc = [buf[start + 4], buf[start + 5], buf[start + 6], buf[start + 7]];
    let remaining: usize = buf.len() - start;
    let mut cursor: usize = start + 8;
    let total: usize = if size32 == 0 {
        remaining
    } else if size32 == 1 {
        if remaining < 16 {
            return Err(at_offset("truncated largesize at offset ", start, ""));
        }
        let ls: u64 = get64(buf, cursor);
        cursor = cursor + 8;
        if ls < 16 || ls > remaining as u64 {
            return Err(out_of_range(&box_type, "largesize", ls, start, remaining));
        }
        ls as usize
    } else {
        if size32 < 8 || size32 as u64 > remaining as u64 {
            return Err(out_of_range(&box_type, "size", size32 as u64, start, remaining));
        }
        size32 as usize
    };
    let mut user_type: Option<[u8; 16]> = None;
    if fourcc_eq(&box_type, &tags::UUID) {
        if total - (cursor - start) < 16 {
            return Err(
                at_offset("uuid box at offset ", start, " too short for its extended type"),
            );
        }
        let ut: [u8; 16] = [
            buf[cursor],
            buf[cursor + 1],
            buf[cursor + 2],
            buf[cursor + 3],
            buf[cursor + 4],
            buf[cursor + 5],
            buf[cursor + 6],
            buf[cursor + 7],
            buf[cursor + 8],
            buf[cursor + 9],
            buf[cursor + 10],
            buf[cursor + 11],
            buf[cursor + 12],
            buf[cursor + 13],
            buf[cursor + 14],
            buf[cursor + 15],
        ];
        user_type = Some(ut);
        cursor = cursor + 16;
    }
    Ok(
        BoxHeader {
            box_type,
            user_type,
            start,
            payload_start: cursor,
            payload_len: total - (cursor - start),
        },
    )
}

/// The headers of the boxes packed from `pos` on, after those in `acc`.
pub open spec fn headers_from(buf: Seq<u8>, pos: int, acc: Seq<BoxHeader>) -> core::result::Result<
    Seq<BoxHeader>,
    ErrorKind,
>
    decreases buf.len() - pos,
{
    if pos >= buf.len() {
        Ok(acc)
    } else {
        match header_at(buf, pos) {
            None => Err(ErrorKind::Invalid),
            Some(h) => if !(pos < h.end_at() <= buf.len()) {
                Err(ErrorKind::Invalid)
            } else {
                headers_from(buf, h.end_at(), acc.push(h))
            },
        }
    }
}

/// Walk over the boxes packed contiguously in a slice.
pub struct BoxIter<'a> {
    buf: &'a [u8],
    cursor: usize,
    failed: bool,
}

impl<'a> BoxIter<'a> {
    /// The bytes walked over.
    pub closed spec fn data(self) -> Seq<u8> {
        self.buf@
    }

    /// The offset of the next header.
    pub closed spec fn at(self) -> int {
        self.cursor as int
    }

    /// Whether a malformed header was met.
    pub closed spec fn stopped(self) -> bool {
        self.failed
    }

    /// Byte offset the walk will read the next header from.
    pub fn position(&self) -> (r: usize)
        ensures
            r == self.at(),
    {
        self.cursor
    }

    /// The next header; `None` at the end and after an error.
    pub fn next(&mut self) -> (r: Option<Result<BoxHeader>>)
        ensures
            final(self).data() == old(self).data(),
            old(self).stopped() || old(self).at() >= old(self).data().len() ==> {
                &&& r is None
                &&& final(self).at() == old(self).at()
                &&& final(self).stopped() == old(self).stopped()
            },
            !old(self).stopped() && old(self).at() < old(self).data().len() ==> match header_at(
                old(self).data(),
                old(self).at(),
            ) {
                Some(h) => {
                    &&& r matches Some(Ok(x)) && x == h
                    &&& final(self).at() == h.end_at()
                    &&& !final(self).stopped()
                },
                None => {
                    &&& r matches Some(Err(e)) && e.kind() == ErrorKind::Invalid
                    &&& final(self).at() == old(self).at()
                    &&& final(self).stopped()
                },
            },
    {
        if self.failed || self.cursor >= self.buf.len() {
            return None;
        }
        match parse_box_header(self.buf, self.cursor) {
            Ok(h) => {
                proof {
                    lemma_header_inside(self.buf@, self.cursor as int);
                }
                self.cursor = h.end();
                Some(Ok(h))
            },
            Err(e) => {
                self.failed = true;
                Some(Err(e))
            },
        }
    }

    /// Every remaining header, or the error that stops the walk.
    pub fn collect(self) -> (r: Result<Vec<BoxHeader>>)
        requires
            !self.stopped(),
        ensures
            match r {
                Ok(v) => headers_from(self.data(), self.at(), Seq::empty()) == Ok::<
                    Seq<BoxHeader>,
                    ErrorKind,
                >(v@),
                Err(e) => headers_from(self.data(), self.at(), Seq::empty()) == Err::<
                    Seq<BoxHeader>,
                    ErrorKind,
                >(e.kind()),
            },
    {
        let buf: &'a [u8] = self.buf;
        let mut out: Vec<BoxHeader> = Vec::new();
        let mut cursor: usize = self.cursor;
        while cursor < buf.len()
            invariant
                buf@ == self.data(),
                headers_from(self.data(), self.at(), Seq::empty()) == headers_from(
                    buf@,
                    cursor as int,
                    out@,
                ),
            decreases buf@.len() - cursor,
        {
            let h: BoxHeader = parse_box_header(buf, cursor)?;
            proof {
                lemma_header_inside(buf@, cursor as int);
            }
            cursor = h.end();
            out.push(h);
        }
        Ok(out)
    }
}

/// Iterate the boxes packed contiguously inside `buf`.
pub fn iter_boxes(buf: &[u8]) -> (r: BoxIter<'_>)
    ensures
        r.data() == buf@,
        r.at() == 0,
        !r.stopped(),
{
    BoxIter { buf, cursor: 0, failed: false }
}

/// Payload slice of a header inside its parent buffer.
pub fn payload<'a>(buf: &'a [u8], h: &BoxHeader) -> (r: &'a [u8])
    requires
        h.end_at() <= buf@.len(),
    ensures
        r@ == payload_of(buf@, *h),
{
    assert(buf.len() == buf@.len());
    span(buf, h.payload_start, h.end())
}

/// The first box of type `target` at or after `pos`.
pub open spec fn first_box(buf: Seq<u8>, pos: int, target: FourCc) -> core::result::Result<
    Option<BoxHeader>,
    ErrorKind,
>
    decreases buf.len() - pos,
{
    if pos >= buf.len() {
        Ok(None)
    } else {
        match header_at(buf, pos) {
            None => Err(ErrorKind::Invalid),
            Some(h) => if h.box_type == target {
                Ok(Some(h))
            } else if !(pos < h.end_at() <= buf.len()) {
                Err(ErrorKind::Invalid)
            } else {
                first_box(buf, h.end_at(), target)
            },
        }
    }
}

/// The payload of the first box of type `target` in `buf`.
pub open spec fn box_payload(buf: Seq<u8>, target: FourCc) -> core::result::Result<
    Option<Seq<u8>>,
    ErrorKind,
> {
    match first_box(buf, 0, target) {
        Err(e) => Err(e),
        Ok(None) => Ok(None),
        Ok(Some(h)) => Ok(Some(payload_of(buf, h))),
    }
}

/// A box that [`first_box`] finds lies inside the buffer and has the type
/// asked for.
pub proof fn lemma_first_box(buf: Seq<u8>, pos: int, target: FourCc)
    requires
        buf.len() <= usize::MAX,
        0 <= pos,
    ensures
        first_box(buf, pos, target) matches Ok(Some(h)) ==> h.inside(buf.len()) && h.box_type == target,
        first_box(buf, pos, target) matches Err(e) ==> e == ErrorKind::Invalid,
    decreases buf.len() - pos,
{
    if pos < buf.len() {
        lemma_header_inside(buf, pos);
        if let Some(h) = header_at(buf, pos) {
            if h.box_type != target {
                lemma_first_box(buf, h.end_at(), target);
            }
        }
    }
}

/// Find the first box of type `target` among the contiguous boxes in
/// `buf`. Returns `Ok(None)` when absent, `Err` on a malformed walk.
pub fn find_box<'a>(buf: &'a [u8], target: &FourCc) -> (r: Result<Option<(BoxHeader, &'a [u8])>>)
    ensures
        match r {
            Ok(None) => first_box(buf@, 0, *target) == Ok::<Option<BoxHeader>, ErrorKind>(None),
            Ok(Some(p)) => first_box(buf@, 0, *target) == Ok::<Option<BoxHeader>, ErrorKind>(
                Some(p.0),
            ) && p.0.inside(buf@.len()) && p.1@ == payload_of(buf@, p.0) && box_payload(
                buf@,
                *target,
            ) == Ok::<Option<Seq<u8>>, ErrorKind>(Some(p.1@)),
            Err(e) => e.kind() == ErrorKind::Invalid && first_box(buf@, 0, *target) == Err::<
                Option<BoxHeader>,
                ErrorKind,
            >(e.kind()),
        },
{
    let mut cursor: usize = 0;
    while cursor < buf.len()
        invariant
            first_box(buf@, 0, *target) == first_box(buf@, cursor as int, *target),
        decreases buf@.len() - cursor,
    {
        let h: BoxHeader = parse_box_header(buf, cursor)?;
        proof {
            lemma_header_inside(buf@, cursor as int);
        }
        if fourcc_eq(&h.box_type, target) {
            return Ok(Some((h, payload(buf, &h))));
        }
        cursor = h.end();
    }
    Ok(None)
}

/// Every box of type `target` from `pos` on, after those in `acc`.
pub open spec fn all_boxes(
    buf: Seq<u8>,
    pos: int,
    target: FourCc,
    acc: Seq<(BoxHeader, Seq<u8>)>,
) -> core::result::Result<Seq<(BoxHeader, Seq<u8>)>, ErrorKind>
    decreases buf.len() - pos,
{
    if pos >= buf.len() {
        Ok(acc)
    } else {
        match header_at(buf, pos) {
            None => Err(ErrorKind::Invalid),
            Some(h) => if !(pos < h.end_at() <= buf.len()) {
                Err(ErrorKind::Invalid)
            } else if h.box_type == target {
                all_boxes(buf, h.end_at(), target, acc.push((h, payload_of(buf, h))))
            } else {
                all_boxes(buf, h.end_at(), target, acc)
            },
        }
    }
}

/// The found boxes with their payloads as byte sequences.
pub open spec fn found_boxes(v: Seq<(BoxHeader, &[u8])>) -> Seq<(BoxHeader, Seq<u8>)> {
    Seq::new(v.len(), |i: int| (v[i].0, v[i].1@))
}

/// Find every box of type `target` among the contiguous boxes in `buf`.
pub fn find_boxes<'a>(buf: &'a [u8], target: &FourCc) -> (r: Result<Vec<(BoxHeader, &'a [u8])>>)
    ensures
        match r {
            Ok(v) => all_boxes(buf@, 0, *target, Seq::empty()) == Ok::<
                Seq<(BoxHeader, Seq<u8>)>,
                ErrorKind,
            >(found_boxes(v@)),
            Err(e) => all_boxes(buf@, 0, *target, Seq::empty()) == Err::<
                Seq<(BoxHeader, Seq<u8>)>,
                ErrorKind,
            >(e.kind()),
        },
{
    let mut out: Vec<(BoxHeader, &'a [u8])> = Vec::new();
    let mut cursor: usize = 0;
    proof {
        assert(found_boxes(out@) =~= Seq::empty());
    }
    while cursor < buf.len()
        invariant
            all_boxes(buf@, 0, *target, Seq::empty()) == all_boxes(
                buf@,
                cursor as int,
                *target,
                found_boxes(out@),
            ),
        decreases buf@.len() - cursor,
    {
        let h: BoxHeader = parse_box_header(buf, cursor)?;
        proof {
            lemma_header_inside(buf@, cursor as int);
        }
        let ghost before = found_boxes(out@);
        if fourcc_eq(&h.box_type, target) {
            out.push((h, payload(buf, &h)));
            proof {
                assert(found_boxes(out@) =~= before.push((h, payload_of(buf@, h))));
            }
        }
        cursor = h.end();
    }
    Ok(out)
}

/// The version, flags and body of a FullBox payload; `None` when it is shorter
/// than its prefix.
pub open spec fn full_box(p: Seq<u8>) -> Option<(u8, u32, Seq<u8>)> {
    if p.len() < 4 {
        None
    } else {
        Some((p[0], be24(p, 1), p.subrange(4, p.len() as int)))
    }
}

/// `FullBox` prefix: `(version, flags, body)`.
pub fn parse_full_box(p: &[u8]) -> (r: Result<(u8, u32, &[u8])>)
    ensures
        match r {
            Ok(x) => full_box(p@) == Some((x.0, x.1, x.2@)),
            Err(e) => e.kind() == ErrorKind::Invalid && full_box(p@) is None,
        },
{
    if p.len() < 4 {
        return Err(HeifError::invalid("truncated FullBox header"));
    }
    Ok((p[0], get24(p, 1), span(p, 4, p.len())))
}

/// What `String::from_utf8_lossy` makes of bytes that are no UTF-8.
pub uninterp spec fn replaced_utf8(b: Seq<u8>) -> Seq<char>;

/// Whether a text holds no NUL.
pub open spec fn no_nul(s: Seq<char>) -> bool {
    forall|i: int| 0 <= i < s.len() ==> (#[trigger] s[i]) as u32 != 0
}

/// Whether no byte is zero.
pub open spec fn no_zero(b: Seq<u8>) -> bool {
    forall|i: int| 0 <= i < b.len() ==> #[trigger] b[i] != 0
}

/// A text without what NULs it holds.
pub open spec fn plain(s: Seq<char>) -> Seq<char>
    decreases s.len(),
{
    if s.len() == 0 {
        s
    } else if s.last() as u32 == 0 {
        plain(s.drop_last())
    } else {
        plain(s.drop_last()).push(s.last())
    }
}

/// Text decoded from UTF-8; bytes that are no UTF-8 are replaced. Only a zero byte
/// gives a NUL.
pub open spec fn utf8_lossy(b: Seq<u8>) -> Seq<char> {
    if vstd::utf8::valid_utf8(b) {
        vstd::utf8::decode_utf8(b)
    } else if no_zero(b) {
        plain(replaced_utf8(b))
    } else {
        replaced_utf8(b)
    }
}

/// A text is left without NULs, and is what it was when it had none.
pub(crate) proof fn lemma_plain(s: Seq<char>)
    ensures
        no_nul(plain(s)),
        no_nul(s) ==> plain(s) == s,
    decreases s.len(),
{
    if s.len() > 0 {
        let front = s.drop_last();
        lemma_plain(front);
        if no_nul(s) {
            assert forall|i: int| 0 <= i < front.len() implies (#[trigger] front[i]) as u32 != 0 by {
                assert(front[i] == s[i]);
            }
            assert(s.last() == s[s.len() - 1]);
            assert(front.push(s.last()) =~= s);
        }
    }
}

/// `String::from_utf8_lossy(..).into_owned()`: bytes that are valid UTF-8 are
/// decoded exactly; others give a text that depends on the bytes alone, with
/// replacement characters for what is no UTF-8, and without a NUL when no byte is
/// zero.
#[verifier::external_body]
fn from_utf8_lossy(b: &[u8]) -> (s: String)
    ensures
        vstd::utf8::valid_utf8(b@) ==> s@ == vstd::utf8::decode_utf8(b@),
        !vstd::utf8::valid_utf8(b@) ==> s@ == replaced_utf8(b@),
        no_zero(b@) ==> no_nul(s@),
{
    String::from_utf8_lossy(b).into_owned()
}

/// Text decoded from UTF-8, with replacement characters for what is no UTF-8.
pub(crate) fn lossy_text(b: &[u8]) -> (s: String)
    ensures
        s@ == utf8_lossy(b@),
{
    let s: String = from_utf8_lossy(b);
    proof {
        lemma_plain(s@);
    }
    s
}

/// Index of the first zero byte at or after `p`, the length when there is none.
pub open spec fn first_zero(s: Seq<u8>, p: int) -> int
    decreases s.len() - p,
{
    if 0 <= p < s.len() && s[p] != 0 {
        first_zero(s, p + 1)
    } else {
        p
    }
}

/// The text at `p` up to a NUL or the end.
pub open spec fn cstr_at(s: Seq<u8>, p: int) -> Seq<char> {
    utf8_lossy(s.subrange(p, first_zero(s, p)))
}

/// The offset after the text at `p` and its terminator.
pub open spec fn cstr_end(s: Seq<u8>, p: int) -> int {
    if first_zero(s, p) < s.len() {
        first_zero(s, p) + 1
    } else {
        first_zero(s, p)
    }
}

/// [`first_zero`] stays in range.
pub proof fn lemma_first_zero(s: Seq<u8>, p: int)
    requires
        0 <= p <= s.len(),
    ensures
        p <= first_zero(s, p) <= s.len(),
    decreases s.len() - p,
{
    if p < s.len() && s[p] != 0 {
        lemma_first_zero(s, p + 1);
    }
}

/// The unsigned integer of `width` bytes at `p`.
pub open spec fn uint_at(s: Seq<u8>, p: int, width: int) -> u64 {
    if width == 1 {
        s[p] as u64
    } else if width == 2 {
        be16(s, p) as u64
    } else if width == 4 {
        be32(s, p) as u64
    } else if width == 8 {
        be64(s, p)
    } else {
        0
    }
}

/// Whether [`Reader::uint`] knows the width.
pub open spec fn uint_width(width: int) -> bool {
    width == 0 || width == 1 || width == 2 || width == 4 || width == 8
}

/// Bounds-checked big-endian cursor over a byte slice.
#[derive(Clone, Copy, Debug)]
pub struct Reader<'a> {
    buf: &'a [u8],
    pos: usize,
}

impl<'a> Reader<'a> {
    /// The bytes read from.
    pub closed spec fn data(self) -> Seq<u8> {
        self.buf@
    }

    /// The offset of the next byte.
    pub closed spec fn at(self) -> int {
        self.pos as int
    }

    /// The offset is inside the bytes or at their end.
    pub open spec fn wf(self) -> bool {
        0 <= self.at() <= self.data().len() <= usize::MAX
    }

    /// `after` is this reader once `n` bytes were asked for: they were taken
    /// exactly when they were there.
    pub open spec fn took(self, after: Self, n: int, ok: bool) -> bool {
        &&& after.wf()
        &&& after.data() == self.data()
        &&& ok == (self.at() + n <= self.data().len())
        &&& after.at() == (if ok {
            self.at() + n
        } else {
            self.at()
        })
    }

    /// Wrap a slice.
    pub fn new(buf: &'a [u8]) -> (r: Self)
        ensures
            r.wf(),
            r.data() == buf@,
            r.at() == 0,
    {
        assert(buf.len() == buf@.len());
        Self { buf, pos: 0 }
    }

    /// Current offset.
    pub fn position(&self) -> (r: usize)
        ensures
            r == self.at(),
    {
        self.pos
    }

    /// Bytes not yet consumed.
    pub fn remaining(&self) -> (r: usize)
        requires
            self.wf(),
        ensures
            r == self.data().len() - self.at(),
    {
        self.buf.len() - self.pos
    }

    /// The unread tail.
    pub fn rest(&self) -> (r: &'a [u8])
        requires
            self.wf(),
        ensures
            r@ == self.data().subrange(self.at(), self.data().len() as int),
    {
        span(self.buf, self.pos, self.buf.len())
    }

    /// `true` once every byte has been consumed.
    pub fn is_empty(&self) -> (r: bool)
        ensures
            r == (self.at() >= self.data().len()),
    {
        self.pos >= self.buf.len()
    }

    fn need(&self, n: usize, what: &str) -> (r: Result<()>)
        requires
            self.wf(),
        ensures
            match r {
                Ok(_) => self.at() + n <= self.data().len(),
                Err(e) => e.kind() == ErrorKind::Invalid && self.at() + n > self.data().len(),
            },
    {
        if self.remaining() < n {
            let need: String = decimal(n as u64);
            let at: String = decimal(self.pos as u64);
            let left: String = decimal(self.remaining() as u64);
            Err(
                HeifError::invalid(
                    concat(
                        &[
                            "truncated ",
                            what,
                            ": need ",
                            need.as_str(),
                            " bytes at offset ",
                            at.as_str(),
                            ", ",
                            left.as_str(),
                            " remain",
                        ],
                    ),
                ),
            )
        } else {
            Ok(())
        }
    }

    /// Take `n` raw bytes.
    pub fn bytes(&mut self, n: usize, what: &str) -> (r: Result<&'a [u8]>)
        requires
            old(self).wf(),
        ensures
            old(self).took(*final(self), n as int, r is Ok),
            r matches Ok(b) ==> b@ == old(self).data().subrange(old(self).at(), old(self).at() + n),
            r matches Err(e) ==> e.kind() == ErrorKind::Invalid,
    {
        self.need(n, what)?;
        let s: &'a [u8] = span(self.buf, self.pos, self.pos + n);
        self.pos = self.pos + n;
        Ok(s)
    }

    /// Skip `n` bytes.
    pub fn skip(&mut self, n: usize, what: &str) -> (r: Result<()>)
        requires
            old(self).wf(),
        ensures
            old(self).took(*final(self), n as int, r is Ok),
            r matches Err(e) ==> e.kind() == ErrorKind::Invalid,
    {
        self.need(n, what)?;
        self.pos = self.pos + n;
        Ok(())
    }

    /// Read one byte.
    pub fn u8(&mut self, what: &str) -> (r: Result<u8>)
        requires
            old(self).wf(),
        ensures
            old(self).took(*final(self), 1, r is Ok),
            r matches Ok(v) ==> v == old(self).data()[old(self).at()],
            r matches Err(e) ==> e.kind() == ErrorKind::Invalid,
    {
        self.need(1, what)?;
        let v: u8 = self.buf[self.pos];
        self.pos = self.pos + 1;
        Ok(v)
    }

    /// Read a big-endian `u16`.
    pub fn u16(&mut self, what: &str) -> (r: Result<u16>)
        requires
            old(self).wf(),
        ensures
            old(self).took(*final(self), 2, r is Ok),
            r matches Ok(v) ==> v == be16(old(self).data(), old(self).at()),
            r matches Err(e) ==> e.kind() == ErrorKind::Invalid,
    {
        self.need(2, what)?;
        let v: u16 = get16(self.buf, self.pos);
        self.pos = self.pos + 2;
        Ok(v)
    }

    /// Read a big-endian `u24`.
    pub fn u24(&mut self, what: &str) -> (r: Result<u32>)
        requires
            old(self).wf(),
        ensures
            old(self).took(*final(self), 3, r is Ok),
            r matches Ok(v) ==> v == be24(old(self).data(), old(self).at()),
            r matches Err(e) ==> e.kind() == ErrorKind::Invalid,
    {
        self.need(3, what)?;
        let v: u32 = get24(self.buf, self.pos);
        self.pos = self.pos + 3;
        Ok(v)
    }

    /// Read a big-endian `u32`.
    pub fn u32(&mut self, what: &str) -> (r: Result<u32>)
        requires
            old(self).wf(),
        ensures
            old(self).took(*final(self), 4, r is Ok),
            r matches Ok(v) ==> v == be32(old(self).data(), old(self).at()),
            r matches Err(e) ==> e.kind() == ErrorKind::Invalid,
    {
        self.need(4, what)?;
        let v: u32 = get32(self.buf, self.pos);
        self.pos = self.pos + 4;
        Ok(v)
    }

    /// Read a big-endian `u64`.
    pub fn u64(&mut self, what: &str) -> (r: Result<u64>)
        requires
            old(self).wf(),
        ensures
            old(self).took(*final(self), 8, r is Ok),
            r matches Ok(v) ==> v == be64(old(self).data(), old(self).at()),
            r matches Err(e) ==> e.kind() == ErrorKind::Invalid,
    {
        self.need(8, what)?;
        let v: u64 = get64(self.buf, self.pos);
        self.pos = self.pos + 8;
        Ok(v)
    }

    /// Read a big-endian `i16`.
    pub fn i16(&mut self, what: &str) -> (r: Result<i16>)
        requires
            old(self).wf(),
        ensures
            old(self).took(*final(self), 2, r is Ok),
            r matches Ok(v) ==> v == signed16(be16(old(self).data(), old(self).at())),
            r matches Err(e) ==> e.kind() == ErrorKind::Invalid,
    {
        let v: u16 = self.u16(what)?;
        Ok(to_i16(v))
    }

    /// Read a big-endian `i32`.
    pub fn i32(&mut self, what: &str) -> (r: Result<i32>)
        requires
            old(self).wf(),
        ensures
            old(self).took(*final(self), 4, r is Ok),
            r matches Ok(v) ==> v == signed32(be32(old(self).data(), old(self).at())),
            r matches Err(e) ==> e.kind() == ErrorKind::Invalid,
    {
        let v: u32 = self.u32(what)?;
        Ok(to_i32(v))
    }

    /// Read a four-character code.
    pub fn fourcc(&mut self, what: &str) -> (r: Result<FourCc>)
        requires
            old(self).wf(),
        ensures
            old(self).took(*final(self), 4, r is Ok),
            r matches Ok(v) ==> v == fourcc_at(old(self).data(), old(self).at()),
            r matches Err(e) ==> e.kind() == ErrorKind::Invalid,
    {
        self.need(4, what)?;
        let p: usize = self.pos;
        let v: FourCc = [self.buf[p], self.buf[p + 1], self.buf[p + 2], self.buf[p + 3]];
        self.pos = p + 4;
        Ok(v)
    }

    /// Read an unsigned integer of `width` bytes (0, 4 or 8 — the field
    /// widths the `iloc` box permits; 0 yields 0). Widths 1 and 2 are
    /// accepted too for other users.
    pub fn uint(&mut self, width: usize, what: &str) -> (r: Result<u64>)
        requires
            old(self).wf(),
        ensures
            final(self).wf(),
            final(self).data() == old(self).data(),
            r is Ok <==> uint_width(width as int) && old(self).at() + width
                <= old(self).data().len(),
            r matches Ok(v) ==> v == uint_at(old(self).data(), old(self).at(), width as int)
                && final(self).at() == old(self).at() + width,
            r matches Err(e) ==> e.kind() == ErrorKind::Invalid && final(self).at() == old(
                self,
            ).at(),
    {
        if width == 0 {
            Ok(0)
        } else if width == 1 {
            let v: u8 = self.u8(what)?;
            Ok(v as u64)
        } else if width == 2 {
            let v: u16 = self.u16(what)?;
            Ok(v as u64)
        } else if width == 4 {
            let v: u32 = self.u32(what)?;
            Ok(v as u64)
        } else if width == 8 {
            self.u64(what)
        } else {
            let w: String = decimal(width as u64);
            Err(HeifError::invalid(concat(&[what, ": unsupported field width ", w.as_str()])))
        }
    }

    /// Read a NUL-terminated string (UTF-8, lossily decoded). The
    /// terminator is consumed. A string running to the end of the
    /// buffer without a terminator is accepted (some writers omit it on
    /// the last field of a box).
    pub fn cstr(&mut self, what: &str) -> (r: Result<String>)
        requires
            old(self).wf(),
        ensures
            final(self).wf(),
            final(self).data() == old(self).data(),
            r matches Ok(s) && s@ == cstr_at(old(self).data(), old(self).at()),
            final(self).at() == cstr_end(old(self).data(), old(self).at()),
    {
        let mut end: usize = self.pos;
        while end < self.buf.len() && self.buf[end] != 0
            invariant
                self.pos <= end <= self.buf@.len(),
                first_zero(self.buf@, self.pos as int) == first_zero(self.buf@, end as int),
            decreases self.buf@.len() - end,
        {
            end = end + 1;
        }
        let s: String = lossy_text(span(self.buf, self.pos, end));
        self.pos = end;
        if self.pos < self.buf.len() {
            self.pos = self.pos + 1;
        }
        Ok(s)
    }
}

/// Reading gave `got` and left the reader at the offset that `want` says.
pub open spec fn reads<M>(
    got: core::result::Result<M, ErrorKind>,
    before: Reader,
    after: Reader,
    want: core::result::Result<(M, int), ErrorKind>,
) -> bool {
    &&& after.wf()
    &&& after.data() == before.data()
    &&& match got {
        Ok(v) => want == Ok::<(M, int), ErrorKind>((v, after.at())),
        Err(e) => want == Err::<(M, int), ErrorKind>(e),
    }
}

/// Container boxes whose children are plain boxes (no header fields
/// before the first child). `meta` and `iref` are FullBoxes and are
/// handled by the walker explicitly; `stsd` / `dref` carry an entry
/// count and are treated as leaves here.
pub const PLAIN_CONTAINERS: [FourCc; 15] = [
    tags::MOOV,
    tags::TRAK,
    tags::MDIA,
    tags::MINF,
    tags::DINF,
    tags::STBL,
    tags::IPRP,
    tags::IPCO,
    tags::EDTS,
    tags::UDTA,
    tags::MVEX,
    tags::MOOF,
    tags::TRAF,
    tags::GRPL,
    tags::TREF,
];

/// One entry of a flattened box walk: the header plus its nesting depth.
#[derive(Clone, Copy, Debug, PartialEq, Eq)]
pub struct WalkEntry {
    /// Header with offsets expressed relative to the whole file.
    pub header: BoxHeader,
    /// Nesting depth (0 for top-level boxes).
    pub depth: usize,
}

/// The payload bytes a container holds before its first child; `None` for a
/// box without children.
pub open spec fn child_skip(file: Seq<u8>, h: BoxHeader) -> Option<int> {
    if PLAIN_CONTAINERS@.contains(h.box_type) {
        Some(0)
    } else if h.box_type == tags::META || h.box_type == tags::IREF {
        Some(4)
    } else if h.box_type == tags::IINF {
        match full_box(payload_of(file, h)) {
            Some((0, _, _)) => Some(6),
            Some(_) => Some(8),
            None => None,
        }
    } else {
        None
    }
}

/// The boxes between `cursor` and `end`, each before its children, after those
/// in `acc`.
pub open spec fn walk_from(
    file: Seq<u8>,
    cursor: int,
    end: int,
    depth: int,
    max_depth: int,
    max_boxes: int,
    acc: Seq<WalkEntry>,
) -> core::result::Result<Seq<WalkEntry>, ErrorKind>
    decreases end - cursor,
{
    if cursor >= end {
        Ok(acc)
    } else {
        match header_at(file.subrange(0, end), cursor) {
            None => Err(ErrorKind::Invalid),
            Some(h) => if acc.len() >= max_boxes {
                Err(ErrorKind::Exhausted)
            } else if !(cursor < h.payload_start <= h.end_at() <= end) {
                Err(ErrorKind::Invalid)
            } else {
                let here = acc.push(WalkEntry { header: h, depth: depth as usize });
                match child_skip(file, h) {
                    None => walk_from(file, h.end_at(), end, depth, max_depth, max_boxes, here),
                    Some(skip) => if depth >= max_depth {
                        Err(ErrorKind::Exhausted)
                    } else if 0 <= skip <= h.payload_len {
                        match walk_from(
                            file,
                            h.payload_start + skip,
                            h.end_at(),
                            depth + 1,
                            max_depth,
                            max_boxes,
                            here,
                        ) {
                            Err(e) => Err(e),
                            Ok(inner) => walk_from(
                                file,
                                h.end_at(),
                                end,
                                depth,
                                max_depth,
                                max_boxes,
                                inner,
                            ),
                        }
                    } else {
                        walk_from(file, h.end_at(), end, depth, max_depth, max_boxes, here)
                    },
                }
            },
        }
    }
}

fn is_plain_container(t: &FourCc) -> (r: bool)
    ensures
        r == PLAIN_CONTAINERS@.contains(*t),
{
    let all: [FourCc; 15] = PLAIN_CONTAINERS;
    for i in 0..15usize
        invariant
            all == PLAIN_CONTAINERS,
            forall|j: int| 0 <= j < i ==> all@[j] != *t,
    {
        if fourcc_eq(&all[i], t) {
            assert(PLAIN_CONTAINERS@[i as int] == *t);
            return true;
        }
    }
    false
}

/// Flatten the box tree of a whole file. Descends into
/// [`PLAIN_CONTAINERS`], into `meta` (skipping its FullBox header) and
/// into `iinf` (skipping the entry count). Errors inside a container are
/// surfaced; the walk is bounded by `max_depth` and `max_boxes` so a
/// hostile file cannot make it recurse or enumerate without bound.
pub fn walk_boxes(file: &[u8], max_depth: usize, max_boxes: usize) -> (r: Result<Vec<WalkEntry>>)
    ensures
        match r {
            Ok(v) => walk_from(
                file@,
                0,
                file@.len() as int,
                0,
                max_depth as int,
                max_boxes as int,
                Seq::empty(),
            ) == Ok::<Seq<WalkEntry>, ErrorKind>(v@),
            Err(e) => walk_from(
                file@,
                0,
                file@.len() as int,
                0,
                max_depth as int,
                max_boxes as int,
                Seq::empty(),
            ) == Err::<Seq<WalkEntry>, ErrorKind>(e.kind()),
        },
{
    let mut out: Vec<WalkEntry> = Vec::new();
    walk_into(file, 0, file.len(), 0, max_depth, max_boxes, &mut out)?;
    Ok(out)
}

fn walk_into(
    file: &[u8],
    start: usize,
    end: usize,
    depth: usize,
    max_depth: usize,
    max_boxes: usize,
    out: &mut Vec<WalkEntry>,
) -> (r: Result<()>)
    requires
        end <= file@.len(),
    ensures
        match r {
            Ok(_) => walk_from(
                file@,
                start as int,
                end as int,
                depth as int,
                max_depth as int,
                max_boxes as int,
                old(out)@,
            ) == Ok::<Seq<WalkEntry>, ErrorKind>(final(out)@),
            Err(e) => walk_from(
                file@,
                start as int,
                end as int,
                depth as int,
                max_depth as int,
                max_boxes as int,
                old(out)@,
            ) == Err::<Seq<WalkEntry>, ErrorKind>(e.kind()),
        },
    decreases end - start,
{
    let ghost goal = walk_from(
        file@,
        start as int,
        end as int,
        depth as int,
        max_depth as int,
        max_boxes as int,
        out@,
    );
    let mut cursor: usize = start;
    let window: &[u8] = span(file, 0, end);
    while cursor < end
        invariant
            end <= file@.len(),
            start <= cursor,
            window@ == file@.subrange(0, end as int),
            goal == walk_from(
                file@,
                start as int,
                end as int,
                depth as int,
                max_depth as int,
                max_boxes as int,
                old(out)@,
            ),
            goal == walk_from(
                file@,
                cursor as int,
                end as int,
                depth as int,
                max_depth as int,
                max_boxes as int,
                out@,
            ),
        decreases end - cursor,
    {
        let h: BoxHeader = parse_box_header(window, cursor)?;
        proof {
            assert(window.len() == window@.len());
            lemma_header_inside(window@, cursor as int);
        }
        if out.len() >= max_boxes {
            let n: String = decimal(max_boxes as u64);
            return Err(
                HeifError::exhausted(concat(&["box walk exceeded ", n.as_str(), " boxes"])),
            );
        }
        out.push(WalkEntry { header: h, depth });
        let skip: Option<usize> = if is_plain_container(&h.box_type) {
            Some(0)
        } else if fourcc_eq(&h.box_type, &tags::META) || fourcc_eq(&h.box_type, &tags::IREF) {
            Some(4)
        } else if fourcc_eq(&h.box_type, &tags::IINF) {
            // FullBox + entry_count (u16 for v0, u32 otherwise).
            match parse_full_box(payload(file, &h)) {
                Ok(x) => if x.0 == 0 {
                    Some(6)
                } else {
                    Some(8)
                },
                Err(_) => None,
            }
        } else {
            None
        };
        if let Some(skip) = skip {
            if depth >= max_depth {
                let n: String = decimal(max_depth as u64);
                return Err(
                    HeifError::exhausted(concat(&["box nesting deeper than ", n.as_str()])),
                );
            }
            if skip <= h.payload_len {
                walk_into(
                    file,
                    h.payload_start + skip,
                    h.end(),
                    depth + 1,
                    max_depth,
                    max_boxes,
                    out,
                )?;
            }
        }
        cursor = h.end();
    }
    Ok(())
}

/// An entry lies inside a file of `len` bytes and is nested no deeper than
/// `max_depth`.
pub open spec fn entry_in_bounds(e: WalkEntry, len: nat, max_depth: int) -> bool {
    e.header.inside(len) && e.depth <= max_depth
}

proof fn lemma_walk(
    file: Seq<u8>,
    cursor: int,
    end: int,
    depth: int,
    max_depth: int,
    max_boxes: int,
    acc: Seq<WalkEntry>,
)
    requires
        file.len() <= usize::MAX,
        0 <= cursor,
        end <= file.len(),
        0 <= depth <= max_depth <= usize::MAX,
        acc.len() <= max_boxes,
        forall|i: int|
            0 <= i < acc.len() ==> entry_in_bounds(#[trigger] acc[i], file.len(), max_depth),
    ensures
        walk_from(file, cursor, end, depth, max_depth, max_boxes, acc) matches Ok(v) ==> {
            &&& v.len() <= max_boxes
            &&& forall|i: int|
                0 <= i < v.len() ==> entry_in_bounds(#[trigger] v[i], file.len(), max_depth)
        },
    decreases end - cursor,
{
    if cursor < end {
        lemma_header_inside(file.subrange(0, end), cursor);
        if let Some(h) = header_at(file.subrange(0, end), cursor) {
            if acc.len() < max_boxes && cursor < h.payload_start <= h.end_at() <= end {
                let e = WalkEntry { header: h, depth: depth as usize };
                let here = acc.push(e);
                assert(entry_in_bounds(e, file.len(), max_depth));
                match child_skip(file, h) {
                    Some(skip) => {
                        if depth < max_depth && 0 <= skip <= h.payload_len {
                            lemma_walk(
                                file,
                                h.payload_start + skip,
                                h.end_at(),
                                depth + 1,
                                max_depth,
                                max_boxes,
                                here,
                            );
                            if let Ok(inner) = walk_from(
                                file,
                                h.payload_start + skip,
                                h.end_at(),
                                depth + 1,
                                max_depth,
                                max_boxes,
                                here,
                            ) {
                                lemma_walk(
                                    file,
                                    h.end_at(),
                                    end,
                                    depth,
                                    max_depth,
                                    max_boxes,
                                    inner,
                                );
                            }
                        } else if depth < max_depth {
                            lemma_walk(
                                file,
                                h.end_at(),
                                end,
                                depth,
                                max_depth,
                                max_boxes,
                                here,
                            );
                        }
                    },
                    None => {
                        lemma_walk(file, h.end_at(), end, depth, max_depth, max_boxes, here);
                    },
                }
            }
        }
    }
}

/// The last of the first `n` entries that is nested at `depth`.
pub open spec fn last_at(v: Seq<WalkEntry>, n: int, depth: int) -> Option<WalkEntry>
    decreases n,
{
    if n <= 0 {
        None
    } else if v[n - 1].depth == depth {
        Some(v[n - 1])
    } else {
        last_at(v, n - 1, depth)
    }
}

/// Where the last of the first `n` top-level boxes ends.
pub open spec fn top_end(v: Seq<WalkEntry>, n: int) -> int {
    match last_at(v, n, 0) {
        Some(e) => e.header.end_at(),
        None => 0,
    }
}

/// The `i`-th entry is in its place: a top-level box begins where the one before it
/// ends, another box lies inside the payload of the box above it, a container.
pub open spec fn in_place(file: Seq<u8>, v: Seq<WalkEntry>, i: int) -> bool {
    if v[i].depth == 0 {
        v[i].header.start == top_end(v, i)
    } else {
        last_at(v, i, v[i].depth - 1) matches Some(p) && child_skip(file, p.header) is Some
            && p.header.payload_start <= v[i].header.start && v[i].header.end_at()
            <= p.header.end_at()
    }
}

/// The last entry at a depth is found among the entries it is looked for in.
proof fn lemma_last_prefix(a: Seq<WalkEntry>, v: Seq<WalkEntry>, n: int, depth: int)
    requires
        n <= a.len() <= v.len(),
        forall|i: int| 0 <= i < a.len() ==> a[i] == v[i],
    ensures
        last_at(a, n, depth) == last_at(v, n, depth),
    decreases n,
{
    if n > 0 {
        lemma_last_prefix(a, v, n - 1, depth);
    }
}

/// Deeper entries do not change it.
proof fn lemma_last_deeper(v: Seq<WalkEntry>, m: int, n: int, depth: int)
    requires
        0 <= m <= n <= v.len(),
        forall|i: int| m <= i < n ==> (#[trigger] v[i]).depth > depth,
    ensures
        last_at(v, n, depth) == last_at(v, m, depth),
    decreases n,
{
    if m < n {
        lemma_last_deeper(v, m, n - 1, depth);
        assert(v[n - 1].depth > depth);
    }
}

/// Entries stay in place when more follow.
proof fn lemma_place_prefix(file: Seq<u8>, a: Seq<WalkEntry>, v: Seq<WalkEntry>)
    requires
        a.len() <= v.len(),
        forall|i: int| 0 <= i < a.len() ==> a[i] == v[i],
        forall|i: int| 0 <= i < a.len() ==> in_place(file, a, i),
    ensures
        forall|i: int| 0 <= i < a.len() ==> in_place(file, v, i),
{
    assert forall|i: int| 0 <= i < a.len() implies in_place(file, v, i) by {
        assert(in_place(file, a, i));
        lemma_last_prefix(a, v, i, 0);
        lemma_last_prefix(a, v, i, v[i].depth - 1);
    }
}

/// What a walk adds is in its place, below the box above it.
#[verifier::rlimit(60)]
#[verifier::spinoff_prover]
proof fn lemma_walk_places(
    file: Seq<u8>,
    cursor: int,
    end: int,
    depth: int,
    max_depth: int,
    max_boxes: int,
    acc: Seq<WalkEntry>,
)
    requires
        file.len() <= usize::MAX,
        0 <= cursor <= end <= file.len(),
        0 <= depth <= max_depth <= usize::MAX,
        forall|i: int| 0 <= i < acc.len() ==> in_place(file, acc, i),
        depth == 0 ==> cursor == top_end(acc, acc.len() as int),
        depth > 0 ==> (last_at(acc, acc.len() as int, depth - 1) matches Some(p) && child_skip(
            file,
            p.header,
        ) is Some && p.header.payload_start <= cursor && end <= p.header.end_at()),
    ensures
        walk_from(file, cursor, end, depth, max_depth, max_boxes, acc) matches Ok(v) ==> {
            &&& acc.len() <= v.len()
            &&& forall|i: int| 0 <= i < acc.len() ==> acc[i] == v[i]
            &&& forall|i: int| acc.len() <= i < v.len() ==> (#[trigger] v[i]).depth >= depth
            &&& forall|i: int| 0 <= i < v.len() ==> in_place(file, v, i)
            &&& depth == 0 ==> end == top_end(v, v.len() as int)
        },
    decreases end - cursor,
{
    if cursor < end {
        lemma_header_inside(file.subrange(0, end), cursor);
        if let Some(h) = header_at(file.subrange(0, end), cursor) {
            if acc.len() < max_boxes && cursor < h.payload_start <= h.end_at() <= end {
                let e = WalkEntry { header: h, depth: depth as usize };
                let here = acc.push(e);
                let n = acc.len() as int;
                lemma_place_prefix(file, acc, here);
                lemma_last_prefix(acc, here, n, 0);
                lemma_last_prefix(acc, here, n, depth - 1);
                assert(in_place(file, here, n));
                assert(forall|i: int| 0 <= i < here.len() ==> in_place(file, here, i));
                assert(last_at(here, n + 1, depth) == Some(e));
                lemma_last_deeper(here, n, n + 1, depth - 1);
                let next = match child_skip(file, h) {
                    Some(skip) if 0 <= skip <= h.payload_len => {
                        if depth < max_depth {
                            lemma_walk_places(
                                file,
                                h.payload_start + skip,
                                h.end_at(),
                                depth + 1,
                                max_depth,
                                max_boxes,
                                here,
                            );
                            walk_from(
                                file,
                                h.payload_start + skip,
                                h.end_at(),
                                depth + 1,
                                max_depth,
                                max_boxes,
                                here,
                            )
                        } else {
                            Err(ErrorKind::Exhausted)
                        }
                    },
                    _ => Ok(here),
                };
                if let Ok(inner) = next {
                    lemma_last_prefix(here, inner, n + 1, depth);
                    lemma_last_prefix(here, inner, n + 1, depth - 1);
                    lemma_last_deeper(inner, n + 1, inner.len() as int, depth);
                    lemma_last_deeper(inner, n + 1, inner.len() as int, depth - 1);
                    lemma_walk_places(file, h.end_at(), end, depth, max_depth, max_boxes, inner);
                }
            }
        }
    }
}

/// A walk lists no more than `max_boxes` boxes, none nested deeper than
/// `max_depth`, each of them inside the file. The top-level boxes tile the file, and
/// every other box lies inside the payload of the box above it in the list, the last
/// one before it that is nested one level less, which is a container.
#[verifier::rlimit(50)]
pub proof fn law_walk_bounds(file: Seq<u8>, max_depth: int, max_boxes: int)
    requires
        file.len() <= usize::MAX,
        0 <= max_depth <= usize::MAX,
        0 <= max_boxes,
    ensures
        walk_from(file, 0, file.len() as int, 0, max_depth, max_boxes, Seq::empty()) matches Ok(v)
            ==> {
            &&& v.len() <= max_boxes
            &&& forall|i: int|
                0 <= i < v.len() ==> entry_in_bounds(#[trigger] v[i], file.len(), max_depth)
            &&& forall|i: int| 0 <= i < v.len() ==> in_place(file, v, i)
            &&& top_end(v, v.len() as int) == file.len()
        },
{
    lemma_walk(file, 0, file.len() as int, 0, max_depth, max_boxes, Seq::empty());
    lemma_walk_places(file, 0, file.len() as int, 0, max_depth, max_boxes, Seq::empty());
}

} // verus!
