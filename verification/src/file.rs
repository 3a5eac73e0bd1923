//! Whole-file view: `ftyp`, the top-level boxes, the file-level `meta`
//! tree and item payload resolution across all three `iloc`
//! construction methods (ISO/IEC 14496-12 §8.11.3).
use crate::boxes::{
    fourcc_eq, fourcc_str, header_at, headers_from, lemma_header_inside, parse_box_header, payload, payload_of,
    walk_boxes, walk_from, BoxHeader, FourCc, WalkEntry,
};
use crate::bytes::{copy_of, put, span};
use crate::error::{view_outcome, ErrorKind, HeifError, Outcome, Result};
use crate::ftyp::{file_type_of, FileType, FileTypeModel};
use crate::meta::{
    lemma_meta_consistent, meta_of, reference, Extent, ItemInfo, ItemInfoModel, ItemLocation, ItemLocationModel, Meta, MetaModel,
};
use crate::tags;
use crate::text::{concat, decimal, decimal_chars, text1, text3};
use vstd::prelude::*;

pub mod laws;

verus! {

/// Upper bound on the concatenated size of one item's data.
pub const MAX_ITEM_BYTES: u64 = 0x4000_0000;

/// Maximum construction-method-2 indirection depth.
pub const MAX_ILOC_DEPTH: usize = 8;

/// Box-tree walk limits used by [`HeifFile::box_walk`].
pub const MAX_WALK_DEPTH: usize = 32;

/// Maximum number of boxes [`HeifFile::box_walk`] enumerates.
pub const MAX_WALK_BOXES: usize = 0x10_0000;

/// Bytes that are borrowed or owned.
#[derive(Debug)]
pub enum Cow<'a> {
    /// Borrowed bytes.
    Borrowed(&'a [u8]),
    /// Owned bytes.
    Owned(Vec<u8>),
}

impl<'a> View for Cow<'a> {
    type V = Seq<u8>;

    open spec fn view(&self) -> Seq<u8> {
        match self {
            Cow::Borrowed(b) => b@,
            Cow::Owned(v) => v@,
        }
    }
}

impl<'a> Clone for Cow<'a> {
    fn clone(&self) -> (r: Self)
        ensures
            r@ == self@,
            r is Borrowed == self is Borrowed,
    {
        match self {
            Cow::Borrowed(b) => Cow::Borrowed(b),
            Cow::Owned(v) => Cow::Owned(copy_of(v.as_slice())),
        }
    }
}

impl<'a> Cow<'a> {
    /// The bytes.
    pub fn as_ref(&self) -> (r: &[u8])
        ensures
            r@ == self@,
    {
        match self {
            Cow::Borrowed(b) => b,
            Cow::Owned(v) => v.as_slice(),
        }
    }

    /// The bytes, copied when they were borrowed.
    pub fn into_owned(self) -> (r: Vec<u8>)
        ensures
            r@ == self@,
    {
        match self {
            Cow::Borrowed(b) => copy_of(b),
            Cow::Owned(v) => v,
        }
    }
}

/// A parsed HEIF / HEIC / MIAF / AVIF file.
///
/// The bytes are borrowed when the file is opened with
/// [`HeifFile::parse`] and owned after [`HeifFile::from_vec`] /
/// [`HeifFile::into_owned`]; item payloads are borrowed from them
/// wherever an item is one contiguous span, so a decode never copies
/// the input.
#[derive(Debug)]
pub struct HeifFile<'a> {
    /// The file bytes.
    pub data: Cow<'a>,
    /// The `ftyp` (or `styp`) box.
    pub file_type: FileType,
    /// The file-level `meta` box, when present.
    pub meta: Option<Meta>,
    /// Headers of every top-level box, in file order.
    pub top_level: Vec<BoxHeader>,
}

/// Model of [`HeifFile`].
#[verifier::ext_equal]
pub struct FileModel {
    /// The file bytes.
    pub data: Seq<u8>,
    /// The `ftyp` (or `styp`) box.
    pub file_type: FileTypeModel,
    /// The file-level `meta` box, when present.
    pub meta: Option<MetaModel>,
    /// Headers of every top-level box, in file order.
    pub top_level: Seq<BoxHeader>,
}

impl<'a> View for HeifFile<'a> {
    type V = FileModel;

    open spec fn view(&self) -> FileModel {
        FileModel {
            data: self.data@,
            file_type: self.file_type@,
            meta: self.meta.deep_view(),
            top_level: self.top_level@,
        }
    }
}

impl<'a> Clone for HeifFile<'a> {
    fn clone(&self) -> (r: Self)
        ensures
            r@ == self@,
            r.owned() == self.owned(),
    {
        HeifFile {
            data: self.data.clone(),
            file_type: self.file_type.clone(),
            meta: match &self.meta {
                Some(m) => Some(m.clone()),
                None => None,
            },
            top_level: crate::bytes::copy_vec(&self.top_level),
        }
    }
}

/// Whether a box is a file type box.
pub open spec fn is_file_type(t: FourCc) -> bool {
    t == tags::FTYP || t == tags::STYP
}

/// What is known of a file after its boxes from `pos` on are read too: the
/// first file type box, the first `meta` box and the headers.
pub open spec fn top_from(
    buf: Seq<u8>,
    pos: int,
    ft: Option<FileTypeModel>,
    meta: Option<MetaModel>,
    top: Seq<BoxHeader>,
) -> Outcome<(Option<FileTypeModel>, Option<MetaModel>, Seq<BoxHeader>)>
    decreases buf.len() - pos,
{
    if pos >= buf.len() {
        Ok((ft, meta, top))
    } else {
        match header_at(buf, pos) {
            None => Err(ErrorKind::Invalid),
            Some(h) => if !(pos < h.end_at() <= buf.len()) {
                Err(ErrorKind::Invalid)
            } else if is_file_type(h.box_type) && ft is None {
                match file_type_of(h.box_type, payload_of(buf, h)) {
                    Err(e) => Err(e),
                    Ok(x) => top_from(buf, h.end_at(), Some(x), meta, top.push(h)),
                }
            } else if h.box_type == tags::META && meta is None {
                match meta_of(payload_of(buf, h)) {
                    Err(e) => Err(e),
                    Ok(x) => top_from(buf, h.end_at(), ft, Some(x), top.push(h)),
                }
            } else {
                top_from(buf, h.end_at(), ft, meta, top.push(h))
            },
        }
    }
}

/// The file a buffer holds.
pub open spec fn file_of(buf: Seq<u8>) -> Outcome<FileModel> {
    match top_from(buf, 0, None, None, Seq::empty()) {
        Err(e) => Err(e),
        Ok((ft, meta, top)) => match ft {
            None => Err(ErrorKind::Invalid),
            Some(file_type) => if top.len() > 0 && !is_file_type(top[0].box_type) {
                Err(ErrorKind::Invalid)
            } else {
                Ok(FileModel { data: buf, file_type, meta, top_level: top })
            },
        },
    }
}

/// The first header of the given type.
pub open spec fn first_header(top: Seq<BoxHeader>, t: FourCc) -> Option<BoxHeader>
    decreases top.len(),
{
    if top.len() == 0 {
        None
    } else if top[0].box_type == t {
        Some(top[0])
    } else {
        first_header(top.drop_first(), t)
    }
}

/// Where an extent starts and ends inside a source of `len` bytes; length 0
/// runs to the end. `None` when it is not inside.
pub open spec fn extent_span(base: u64, e: Extent, len: nat) -> Option<(int, int)> {
    let start = base + e.offset;
    let end = if e.length == 0 {
        len as int
    } else {
        start + e.length
    };
    if start <= end <= len {
        Some((start, end))
    } else {
        None
    }
}

/// The spans of the extents from `i` on, after those in `acc`, whose lengths
/// sum up to `total`.
pub open spec fn spans_from(
    loc: ItemLocationModel,
    len: nat,
    i: int,
    total: int,
    acc: Seq<(usize, usize)>,
) -> Outcome<Seq<(usize, usize)>>
    decreases loc.extents.len() - i,
{
    if i >= loc.extents.len() {
        Ok(acc)
    } else {
        match extent_span(loc.base_offset, loc.extents[i], len) {
            None => Err(ErrorKind::Invalid),
            Some((start, end)) => if total + (end - start) > MAX_ITEM_BYTES {
                Err(ErrorKind::Exhausted)
            } else {
                spans_from(
                    loc,
                    len,
                    i + 1,
                    total + (end - start),
                    acc.push((start as usize, end as usize)),
                )
            },
        }
    }
}

/// The spans of an item inside a source of `len` bytes.
pub open spec fn spans_of(loc: ItemLocationModel, len: nat) -> Outcome<Seq<(usize, usize)>> {
    spans_from(loc, len, 0, 0, Seq::empty())
}

/// The bytes of the spans, one after the other.
pub open spec fn joined(source: Seq<u8>, spans: Seq<(usize, usize)>) -> Seq<u8>
    decreases spans.len(),
{
    if spans.len() == 0 {
        Seq::empty()
    } else {
        joined(source, spans.drop_last()) + source.subrange(
            spans.last().0 as int,
            spans.last().1 as int,
        )
    }
}

/// The bytes of an item whose extents lie in `source`.
pub open spec fn item_in(loc: ItemLocationModel, source: Seq<u8>) -> Outcome<Seq<u8>> {
    match spans_of(loc, source.len()) {
        Err(e) => Err(e),
        Ok(spans) => Ok(joined(source, spans)),
    }
}

/// The item an extent of construction method 2 takes its bytes from.
pub open spec fn extent_source(sources: Seq<u32>, e: Extent) -> Option<u32> {
    let n: int = if e.index == 0 {
        1
    } else {
        e.index as int
    };
    if n <= sources.len() {
        Some(sources[n - 1])
    } else {
        None
    }
}

/// The bytes of an item reached through `depth` items.
pub open spec fn item_at_depth(f: FileModel, id: u32, depth: int) -> Outcome<Seq<u8>>
    decreases MAX_ILOC_DEPTH + 1 - depth, 1int, 0int,
{
    if depth > MAX_ILOC_DEPTH {
        Err(ErrorKind::Exhausted)
    } else {
        match f.meta {
            None => Err(ErrorKind::Invalid),
            Some(meta) => match meta.location(id) {
                None => Err(ErrorKind::Invalid),
                Some(loc) => if loc.extents.len() == 0 {
                    Ok(Seq::empty())
                } else if loc.construction_method == 0 {
                    if meta.self_contained(loc) {
                        item_in(loc, f.data)
                    } else {
                        Err(ErrorKind::Unsupported)
                    }
                } else if loc.construction_method == 1 {
                    match meta.idat {
                        None => Err(ErrorKind::Invalid),
                        Some(idat) => item_in(loc, idat),
                    }
                } else if loc.construction_method == 2 {
                    pieces_from(f, id, meta, loc, depth, 0, Seq::empty())
                } else {
                    Err(ErrorKind::Invalid)
                },
            },
        }
    }
}

/// The bytes of the extents from `i` on, each taken from another item, after
/// those in `acc`.
pub open spec fn pieces_from(
    f: FileModel,
    id: u32,
    meta: MetaModel,
    loc: ItemLocationModel,
    depth: int,
    i: int,
    acc: Seq<u8>,
) -> Outcome<Seq<u8>>
    decreases MAX_ILOC_DEPTH + 1 - depth, 0int, loc.extents.len() - i,
{
    if i >= loc.extents.len() || depth > MAX_ILOC_DEPTH {
        Ok(acc)
    } else {
        let e = loc.extents[i];
        match extent_source(meta.references_from(id, reference::ILOC), e) {
            None => Err(ErrorKind::Invalid),
            Some(src_id) => if src_id == id {
                Err(ErrorKind::Invalid)
            } else {
                match item_at_depth(f, src_id, depth + 1) {
                    Err(e) => Err(e),
                    Ok(src) => match extent_span(loc.base_offset, e, src.len()) {
                        None => Err(ErrorKind::Invalid),
                        Some((start, end)) => if acc.len() + (end - start) > MAX_ITEM_BYTES {
                            Err(ErrorKind::Exhausted)
                        } else {
                            pieces_from(
                                f,
                                id,
                                meta,
                                loc,
                                depth,
                                i + 1,
                                acc + src.subrange(start, end),
                            )
                        },
                    },
                }
            },
        }
    }
}

impl FileModel {
    /// Every header lies inside the file.
    pub open spec fn wf(self) -> bool {
        forall|i: int|
            0 <= i < self.top_level.len() ==> (#[trigger] self.top_level[i]).inside(
                self.data.len(),
            )
    }

    /// Payload of the first top-level box of the given type.
    pub open spec fn top_payload(self, t: FourCc) -> Option<Seq<u8>> {
        match first_header(self.top_level, t) {
            Some(h) => Some(payload_of(self.data, h)),
            None => None,
        }
    }

    /// The primary item.
    pub open spec fn primary(self) -> Option<ItemInfoModel> {
        match self.meta {
            None => None,
            Some(meta) => match meta.primary_item_id {
                None => None,
                Some(id) => meta.item(id),
            },
        }
    }

    /// What is said of a file without a primary item.
    pub open spec fn no_primary_message(self) -> Seq<char> {
        match self.meta {
            None => "file has no meta box"@,
            Some(meta) => match meta.primary_item_id {
                None => "meta has no pitm box"@,
                Some(id) => "pitm names item "@ + decimal_chars(id as nat)
                    + " which is not in iinf"@,
            },
        }
    }

    /// The payload bytes of an item.
    pub open spec fn item_bytes(self, id: u32) -> Outcome<Seq<u8>> {
        item_at_depth(self, id, 0)
    }

    /// The location of an item.
    pub open spec fn location(self, id: u32) -> Option<ItemLocationModel> {
        match self.meta {
            None => None,
            Some(meta) => meta.location(id),
        }
    }

    /// The byte spans of an item that lies in the file itself.
    pub open spec fn file_spans(self, id: u32) -> Outcome<Seq<(usize, usize)>> {
        match self.meta {
            None => Err(ErrorKind::Invalid),
            Some(meta) => match meta.location(id) {
                None => Err(ErrorKind::Invalid),
                Some(loc) => if loc.construction_method != 0 {
                    Err(ErrorKind::Invalid)
                } else if !meta.self_contained(loc) {
                    Err(ErrorKind::Unsupported)
                } else {
                    spans_of(loc, self.data.len())
                },
            },
        }
    }
}

/// Whether the data of an item are one piece of the file or of `idat` (or
/// nothing at all).
pub open spec fn in_one_piece(loc: ItemLocationModel) -> bool {
    loc.extents.len() == 0 || (loc.construction_method != 2 && loc.extents.len() == 1)
}

/// The spans are as many as the extents and lie inside the source.
proof fn lemma_spans(
    loc: ItemLocationModel,
    len: nat,
    i: int,
    total: int,
    acc: Seq<(usize, usize)>,
)
    requires
        0 <= i <= loc.extents.len(),
        len <= usize::MAX,
        acc.len() == i,
        forall|k: int| 0 <= k < acc.len() ==> (#[trigger] acc[k]).0 <= acc[k].1 <= len,
    ensures
        spans_from(loc, len, i, total, acc) matches Ok(v) ==> {
            &&& v.len() == loc.extents.len()
            &&& forall|k: int| 0 <= k < v.len() ==> (#[trigger] v[k]).0 <= v[k].1 <= len
        },
    decreases loc.extents.len() - i,
{
    if i < loc.extents.len() {
        if let Some((start, end)) = extent_span(loc.base_offset, loc.extents[i], len) {
            if total + (end - start) <= MAX_ITEM_BYTES {
                lemma_spans(
                    loc,
                    len,
                    i + 1,
                    total + (end - start),
                    acc.push((start as usize, end as usize)),
                );
            }
        }
    }
}

/// The length of the joined bytes is what the spans sum up to.
proof fn lemma_joined_len(
    loc: ItemLocationModel,
    source: Seq<u8>,
    i: int,
    total: int,
    acc: Seq<(usize, usize)>,
)
    requires
        0 <= i <= loc.extents.len(),
        source.len() <= usize::MAX,
        joined(source, acc).len() == total,
        total <= MAX_ITEM_BYTES,
    ensures
        spans_from(loc, source.len(), i, total, acc) matches Ok(v) ==> joined(source, v).len()
            <= MAX_ITEM_BYTES,
    decreases loc.extents.len() - i,
{
    if i < loc.extents.len() {
        if let Some((start, end)) = extent_span(loc.base_offset, loc.extents[i], source.len()) {
            if total + (end - start) <= MAX_ITEM_BYTES {
                let next = acc.push((start as usize, end as usize));
                assert(next.drop_last() =~= acc);
                lemma_joined_len(loc, source, i + 1, total + (end - start), next);
            }
        }
    }
}

/// The data of an item are never longer than [`MAX_ITEM_BYTES`], however they
/// are put together.
#[verifier::rlimit(50)]
pub proof fn law_item_size(f: FileModel, id: u32)
    requires
        f.data.len() <= usize::MAX,
        f.meta matches Some(m) && m.idat matches Some(idat) ==> idat.len() <= usize::MAX,
    ensures
        f.item_bytes(id) matches Ok(b) ==> b.len() <= MAX_ITEM_BYTES,
{
    if let Some(meta) = f.meta {
        if let Some(loc) = meta.location(id) {
            lemma_joined_len(loc, f.data, 0, 0, Seq::empty());
            if let Some(idat) = meta.idat {
                lemma_joined_len(loc, idat, 0, 0, Seq::empty());
            }
            lemma_pieces_len(f, id, meta, loc, 0, 0, Seq::empty());
        }
    }
}

proof fn lemma_pieces_len(
    f: FileModel,
    id: u32,
    meta: MetaModel,
    loc: ItemLocationModel,
    depth: int,
    i: int,
    acc: Seq<u8>,
)
    requires
        acc.len() <= MAX_ITEM_BYTES,
    ensures
        pieces_from(f, id, meta, loc, depth, i, acc) matches Ok(b) ==> b.len() <= MAX_ITEM_BYTES,
    decreases loc.extents.len() - i,
{
    if i < loc.extents.len() && depth <= MAX_ILOC_DEPTH {
        let e = loc.extents[i];
        if let Some(src_id) = extent_source(meta.references_from(id, reference::ILOC), e) {
            if let Ok(src) = item_at_depth(f, src_id, depth + 1) {
                if let Some((start, end)) = extent_span(loc.base_offset, e, src.len()) {
                    if acc.len() + (end - start) <= MAX_ITEM_BYTES {
                        lemma_pieces_len(
                            f,
                            id,
                            meta,
                            loc,
                            depth,
                            i + 1,
                            acc + src.subrange(start, end),
                        );
                    }
                }
            }
        }
    }
}

/// The headers are those of the boxes, and lie inside the buffer.
proof fn lemma_top_headers(
    buf: Seq<u8>,
    pos: int,
    ft: Option<FileTypeModel>,
    meta: Option<MetaModel>,
    top: Seq<BoxHeader>,
)
    requires
        0 <= pos,
        buf.len() <= usize::MAX,
        forall|i: int| 0 <= i < top.len() ==> (#[trigger] top[i]).inside(buf.len()),
    ensures
        top_from(buf, pos, ft, meta, top) matches Ok((_, _, all)) ==> {
            &&& headers_from(buf, pos, top) == Ok::<Seq<BoxHeader>, ErrorKind>(all)
            &&& forall|i: int| 0 <= i < all.len() ==> (#[trigger] all[i]).inside(buf.len())
        },
    decreases buf.len() - pos,
{
    if pos < buf.len() {
        lemma_header_inside(buf, pos);
        if let Some(h) = header_at(buf, pos) {
            let next = top.push(h);
            if is_file_type(h.box_type) && ft is None {
                if let Ok(x) = file_type_of(h.box_type, payload_of(buf, h)) {
                    lemma_top_headers(buf, h.end_at(), Some(x), meta, next);
                }
            } else if h.box_type == tags::META && meta is None {
                if let Ok(x) = meta_of(payload_of(buf, h)) {
                    lemma_top_headers(buf, h.end_at(), ft, Some(x), next);
                }
            } else {
                lemma_top_headers(buf, h.end_at(), ft, meta, next);
            }
        }
    }
}

/// The `meta` box is consistent.
proof fn lemma_top_meta(
    buf: Seq<u8>,
    pos: int,
    ft: Option<FileTypeModel>,
    meta: Option<MetaModel>,
    top: Seq<BoxHeader>,
)
    requires
        0 <= pos,
        buf.len() <= usize::MAX,
        meta matches Some(m) ==> m.consistent(),
    ensures
        top_from(buf, pos, ft, meta, top) matches Ok((_, m, _)) ==> (m matches Some(x)
            ==> x.consistent()),
    decreases buf.len() - pos,
{
    if pos < buf.len() {
        lemma_header_inside(buf, pos);
        if let Some(h) = header_at(buf, pos) {
            let next = top.push(h);
            if is_file_type(h.box_type) && ft is None {
                if let Ok(x) = file_type_of(h.box_type, payload_of(buf, h)) {
                    lemma_top_meta(buf, h.end_at(), Some(x), meta, next);
                }
            } else if h.box_type == tags::META && meta is None {
                if let Ok(x) = meta_of(payload_of(buf, h)) {
                    lemma_meta_consistent(payload_of(buf, h));
                    lemma_top_meta(buf, h.end_at(), ft, Some(x), next);
                }
            } else {
                lemma_top_meta(buf, h.end_at(), ft, meta, next);
            }
        }
    }
}

/// A file that parses starts with a file type box, lists its top-level boxes
/// in file order, each inside the file, and has a consistent `meta`: item ids
/// are unique and associations name existing properties.
#[verifier::rlimit(50)]
pub proof fn law_parsed_file(buf: Seq<u8>)
    requires
        buf.len() <= usize::MAX,
    ensures
        file_of(buf) matches Ok(f) ==> {
            &&& f.wf()
            &&& f.data == buf
            &&& headers_from(buf, 0, Seq::empty()) == Ok::<Seq<BoxHeader>, ErrorKind>(f.top_level)
            &&& f.top_level.len() > 0 ==> is_file_type(f.top_level[0].box_type)
            &&& f.meta matches Some(m) ==> m.consistent()
        },
{
    lemma_top_headers(buf, 0, None, None, Seq::empty());
    lemma_top_meta(buf, 0, None, None, Seq::empty());
}

impl<'a> HeifFile<'a> {
    /// Whether the bytes are owned.
    pub open spec fn owned(self) -> bool {
        self.data is Owned
    }

    /// Parse a file held in memory, borrowing the bytes (no copy).
    pub fn parse(bytes: &'a [u8]) -> (r: Result<Self>)
        ensures
            view_outcome(r) == file_of(bytes@),
            r matches Ok(f) ==> !f.owned() && f@.wf(),
    {
        Self::from_cow(Cow::Borrowed(bytes))
    }

    /// Parse a file, taking ownership of its bytes.
    pub fn from_vec(data: Vec<u8>) -> (r: Result<HeifFile<'static>>)
        ensures
            view_outcome(r) == file_of(data@),
            r matches Ok(f) ==> f.owned() && f@.wf(),
    {
        HeifFile::from_cow(Cow::Owned(data))
    }

    /// Parse a file from borrowed or owned bytes.
    pub fn from_cow(data: Cow<'a>) -> (r: Result<Self>)
        ensures
            view_outcome(r) == file_of(data@),
            r matches Ok(f) ==> f.owned() == (data is Owned) && f@.wf(),
    {
        let mut top_level: Vec<BoxHeader> = Vec::new();
        let mut file_type: Option<FileType> = None;
        let mut meta: Option<Meta> = None;
        let ghost all = data@;
        let ghost goal = top_from(all, 0, None, None, Seq::empty());
        let buf: &[u8] = data.as_ref();
        proof {
            assert(tags::META[0] != tags::FTYP[0] && tags::META[0] != tags::STYP[0]);
        }
        let mut cursor: usize = 0;
        while cursor < buf.len()
            invariant
                buf@ == all,
                data@ == all,
                tags::META[0] != tags::FTYP[0] && tags::META[0] != tags::STYP[0],
                goal == top_from(all, 0, None, None, Seq::empty()),
                goal == top_from(
                    all,
                    cursor as int,
                    file_type.deep_view(),
                    meta.deep_view(),
                    top_level@,
                ),
            decreases buf@.len() - cursor,
        {
            let h: BoxHeader = parse_box_header(buf, cursor)?;
            proof {
                lemma_header_inside(buf@, cursor as int);
            }
            let p: &[u8] = payload(buf, &h);
            if fourcc_eq(&h.box_type, &tags::FTYP) || fourcc_eq(&h.box_type, &tags::STYP) {
                if file_type.is_none() {
                    let ft: FileType = FileType::parse(h.box_type, p)?;
                    file_type = Some(ft);
                }
            } else if fourcc_eq(&h.box_type, &tags::META) && meta.is_none() {
                let m: Meta = Meta::parse(p)?;
                meta = Some(m);
            }
            top_level.push(h);
            cursor = h.end();
        }
        proof {
            assert(buf.len() == buf@.len());
            law_parsed_file(all);
        }
        let file_type: FileType = match file_type {
            Some(ft) => ft,
            None => {
                return Err(
                    HeifError::invalid("no ftyp box (ISO/IEC 23008-12 §10 requires one)"),
                );
            },
        };
        if top_level.len() > 0 {
            let first: FourCc = top_level[0].box_type;
            if !(fourcc_eq(&first, &tags::FTYP) || fourcc_eq(&first, &tags::STYP)) {
                let t: String = fourcc_str(&first);
                return Err(
                    HeifError::invalid(
                        concat(
                            &[
                                "first box is '",
                                t.as_str(),
                                "' - ftyp shall be first (ISO/IEC 14496-12 §4.3)",
                            ],
                        ),
                    ),
                );
            }
        }
        Ok(HeifFile { data, file_type, meta, top_level })
    }

    /// The file bytes.
    pub fn bytes(&self) -> (r: &[u8])
        ensures
            r@ == self@.data,
    {
        self.data.as_ref()
    }

    /// Consume the view and return the file bytes (copied only when
    /// they were borrowed).
    pub fn into_bytes(self) -> (r: Vec<u8>)
        ensures
            r@ == self@.data,
    {
        self.data.into_owned()
    }

    /// Detach from the borrowed input (copies borrowed bytes once; a
    /// no-op for an owned file).
    pub fn into_owned(self) -> (r: HeifFile<'static>)
        ensures
            r@ == self@,
            r.owned(),
    {
        HeifFile {
            data: Cow::Owned(self.data.into_owned()),
            file_type: self.file_type,
            meta: self.meta,
            top_level: self.top_level,
        }
    }

    /// `true` when the bytes are owned by this view.
    pub fn is_owned(&self) -> (r: bool)
        ensures
            r == self.owned(),
    {
        match self.data {
            Cow::Owned(_) => true,
            Cow::Borrowed(_) => false,
        }
    }

    fn find_header(&self, box_type: &FourCc) -> (r: Option<BoxHeader>)
        ensures
            r == first_header(self@.top_level, *box_type),
            r matches Some(h) ==> self.top_level@.contains(h),
    {
        let ghost all = self.top_level@;
        proof {
            assert(all.skip(0) =~= all);
        }
        for i in 0..self.top_level.len()
            invariant
                all == self.top_level@,
                first_header(all, *box_type) == first_header(all.skip(i as int), *box_type),
        {
            proof {
                assert(all.skip(i as int)[0] == all[i as int]);
                assert(all.skip(i as int).drop_first() =~= all.skip(i as int + 1));
            }
            if fourcc_eq(&self.top_level[i].box_type, box_type) {
                return Some(self.top_level[i]);
            }
        }
        None
    }

    /// `true` when a top-level `moov` box exists (image sequence / video).
    pub fn has_moov(&self) -> (r: bool)
        ensures
            r == (first_header(self@.top_level, tags::MOOV) is Some),
    {
        self.find_header(&tags::MOOV).is_some()
    }

    /// Payload of the first top-level box of `box_type`.
    pub fn top_level_payload(&self, box_type: &FourCc) -> (r: Option<&[u8]>)
        requires
            self@.wf(),
        ensures
            match r {
                Some(p) => self@.top_payload(*box_type) == Some(p@),
                None => self@.top_payload(*box_type) is None,
            },
    {
        match self.find_header(box_type) {
            Some(h) => {
                proof {
                    let i = choose|i: int| 0 <= i < self@.top_level.len() && self@.top_level[i] == h;
                    assert(self@.top_level[i].inside(self@.data.len()));
                }
                Some(payload(self.data.as_ref(), &h))
            },
            None => None,
        }
    }

    /// Flattened box tree (bounded walk), for inspection and traces.
    pub fn box_walk(&self) -> (r: Result<Vec<WalkEntry>>)
        ensures
            view_outcome(r) == walk_from(
                self@.data,
                0,
                self@.data.len() as int,
                0,
                MAX_WALK_DEPTH as int,
                MAX_WALK_BOXES as int,
                Seq::empty(),
            ),
    {
        walk_boxes(self.data.as_ref(), MAX_WALK_DEPTH, MAX_WALK_BOXES)
    }

    /// The `meta` box, or an error naming what is missing.
    pub fn meta(&self) -> (r: Result<&Meta>)
        ensures
            match r {
                Ok(m) => self@.meta == Some(m@),
                Err(e) => self@.meta is None && e.kind() == ErrorKind::Invalid && e.message()
                    == "file has no meta box"@,
            },
    {
        match &self.meta {
            Some(m) => Ok(m),
            None => Err(HeifError::InvalidData(text1("file has no meta box"))),
        }
    }

    /// The primary item (`pitm`), or an error.
    pub fn primary_item(&self) -> (r: Result<&ItemInfo>)
        ensures
            match r {
                Ok(x) => self@.primary() == Some(x@),
                Err(e) => self@.primary() is None && e.kind() == ErrorKind::Invalid && e.message()
                    == self@.no_primary_message(),
            },
    {
        let meta: &Meta = self.meta()?;
        let id: u32 = match meta.primary_item_id {
            Some(id) => id,
            None => {
                return Err(HeifError::InvalidData(text1("meta has no pitm box")));
            },
        };
        match meta.item(id) {
            Some(x) => Ok(x),
            None => {
                let n: String = decimal(id as u64);
                Err(
                    HeifError::InvalidData(
                        text3("pitm names item ", n.as_str(), " which is not in iinf"),
                    ),
                )
            },
        }
    }

    /// Resolve the payload bytes of an item (all extents concatenated,
    /// every construction method). Borrows from the file when the item
    /// is a single contiguous span.
    pub fn item_data(&self, item_id: u32) -> (r: Result<Cow<'_>>)
        ensures
            view_outcome(r) == self@.item_bytes(item_id),
            r matches Ok(c) ==> (self@.location(item_id) matches Some(loc) && (c is Borrowed
                == in_one_piece(loc))),
    {
        self.item_data_depth(item_id, 0)
    }

    /// Owned copy of [`item_data`](Self::item_data).
    pub fn item_data_owned(&self, item_id: u32) -> (r: Result<Vec<u8>>)
        ensures
            view_outcome(r) == self@.item_bytes(item_id),
    {
        let c: Cow<'_> = self.item_data(item_id)?;
        Ok(c.into_owned())
    }

    fn location_of(&self, meta: &Meta, item_id: u32) -> (r: Result<ItemLocation>)
        ensures
            match r {
                Ok(x) => meta@.location(item_id) == Some(x@),
                Err(e) => meta@.location(item_id) is None && e.kind() == ErrorKind::Invalid,
            },
    {
        match meta.location(item_id) {
            Some(loc) => Ok(loc.clone()),
            None => {
                let n: String = decimal(item_id as u64);
                Err(HeifError::invalid(concat(&["item ", n.as_str(), " has no iloc entry"])))
            },
        }
    }

    /// The byte spans (absolute file offsets) of an item whose data
    /// lives in this file via construction method 0. Used by the
    /// demuxers to hand out packets without copying twice.
    pub fn item_file_spans(&self, item_id: u32) -> (r: Result<Vec<(usize, usize)>>)
        ensures
            view_outcome(r) == self@.file_spans(item_id),
    {
        let meta: &Meta = self.meta()?;
        let loc: ItemLocation = self.location_of(meta, item_id)?;
        if loc.construction_method != 0 {
            let n: String = decimal(item_id as u64);
            let m: String = decimal(loc.construction_method as u64);
            return Err(
                HeifError::invalid(
                    concat(&["item ", n.as_str(), " uses construction method ", m.as_str()]),
                ),
            );
        }
        self.check_self_contained(meta, &loc)?;
        let len: usize = self.data.as_ref().len();
        spans_in(&loc, len)
    }

    fn check_self_contained(&self, meta: &Meta, loc: &ItemLocation) -> (r: Result<()>)
        ensures
            match r {
                Ok(_) => meta@.self_contained(loc@),
                Err(e) => !meta@.self_contained(loc@) && e.kind() == ErrorKind::Unsupported,
            },
    {
        if !meta.is_self_contained(loc) {
            let n: String = decimal(loc.item_id as u64);
            let m: String = decimal(loc.data_reference_index as u64);
            return Err(
                HeifError::unsupported(
                    concat(
                        &[
                            "item ",
                            n.as_str(),
                            ": data_reference_index ",
                            m.as_str(),
                            " points outside this file",
                        ],
                    ),
                ),
            );
        }
        Ok(())
    }

    fn item_data_depth(&self, item_id: u32, depth: usize) -> (r: Result<Cow<'_>>)
        ensures
            view_outcome(r) == item_at_depth(self@, item_id, depth as int),
            r matches Ok(c) ==> (self@.location(item_id) matches Some(loc) && (c is Borrowed
                == in_one_piece(loc))),
        decreases MAX_ILOC_DEPTH + 1 - depth,
    {
        if depth > MAX_ILOC_DEPTH {
            let n: String = decimal(item_id as u64);
            let m: String = decimal(MAX_ILOC_DEPTH as u64);
            return Err(
                HeifError::exhausted(
                    concat(
                        &[
                            "item ",
                            n.as_str(),
                            ": construction-method-2 chain deeper than ",
                            m.as_str(),
                        ],
                    ),
                ),
            );
        }
        let meta: &Meta = self.meta()?;
        let loc: ItemLocation = self.location_of(meta, item_id)?;
        if loc.extents.len() == 0 {
            let bytes: &[u8] = self.data.as_ref();
            let r: Cow<'_> = Cow::Borrowed(span(bytes, 0, 0));
            proof {
                assert(r@ =~= Seq::empty());
            }
            return Ok(r);
        }
        if loc.construction_method == 0 {
            self.check_self_contained(meta, &loc)?;
            let bytes: &[u8] = self.data.as_ref();
            let spans: Vec<(usize, usize)> = spans_in(&loc, bytes.len())?;
            Ok(concat_spans(bytes, &spans))
        } else if loc.construction_method == 1 {
            let idat: &[u8] = match &meta.idat {
                Some(idat) => idat.as_slice(),
                None => {
                    let n: String = decimal(item_id as u64);
                    return Err(
                        HeifError::invalid(
                            concat(
                                &[
                                    "item ",
                                    n.as_str(),
                                    " uses idat offsets but meta has no idat box",
                                ],
                            ),
                        ),
                    );
                },
            };
            let spans: Vec<(usize, usize)> = spans_in(&loc, idat.len())?;
            Ok(concat_spans(idat, &spans))
        } else if loc.construction_method == 2 {
            let sources: Vec<u32> = meta.references_from(item_id, &reference::ILOC);
            let mut out: Vec<u8> = Vec::new();
            let ghost goal = pieces_from(
                self@,
                item_id,
                meta@,
                loc@,
                depth as int,
                0,
                Seq::empty(),
            );
            for i in 0..loc.extents.len()
                invariant
                    depth <= MAX_ILOC_DEPTH,
                    out@.len() <= MAX_ITEM_BYTES,
                    sources@ == meta@.references_from(item_id, reference::ILOC),
                    goal == item_at_depth(self@, item_id, depth as int),
                    goal == pieces_from(
                        self@,
                        item_id,
                        meta@,
                        loc@,
                        depth as int,
                        i as int,
                        out@,
                    ),
            {
                let e: Extent = loc.extents[i];
                let src_id: u32 = extent_source_id(item_id, &sources, e)?;
                if src_id == item_id {
                    let n: String = decimal(item_id as u64);
                    return Err(
                        HeifError::invalid(
                            concat(
                                &[
                                    "item ",
                                    n.as_str(),
                                    " references itself through construction method 2",
                                ],
                            ),
                        ),
                    );
                }
                let src: Cow<'_> = self.item_data_depth(src_id, depth + 1)?;
                let bytes: &[u8] = src.as_ref();
                let (start, end) = span_in(loc.item_id, loc.base_offset, e, bytes.len())?;
                if (out.len() as u64).saturating_add((end - start) as u64) > MAX_ITEM_BYTES {
                    return Err(too_large(item_id));
                }
                put(&mut out, span(bytes, start, end));
            }
            Ok(Cow::Owned(out))
        } else {
            let n: String = decimal(item_id as u64);
            let m: String = decimal(loc.construction_method as u64);
            Err(
                HeifError::invalid(
                    concat(&["item ", n.as_str(), ": construction_method ", m.as_str()]),
                ),
            )
        }
    }
}

fn too_large(item_id: u32) -> (e: HeifError)
    ensures
        e.kind() == ErrorKind::Exhausted,
{
    let n: String = decimal(item_id as u64);
    let m: String = decimal(MAX_ITEM_BYTES);
    HeifError::exhausted(concat(&["item ", n.as_str(), " exceeds ", m.as_str(), " bytes"]))
}

fn extent_source_id(item_id: u32, sources: &Vec<u32>, e: Extent) -> (r: Result<u32>)
    ensures
        match r {
            Ok(id) => extent_source(sources@, e) == Some(id),
            Err(e2) => extent_source(sources@, e) is None && e2.kind() == ErrorKind::Invalid,
        },
{
    let idx: u64 = if e.index == 0 {
        1
    } else {
        e.index
    };
    if idx > sources.len() as u64 {
        let n: String = decimal(item_id as u64);
        let i: String = decimal(idx);
        let c: String = decimal(sources.len() as u64);
        return Err(
            HeifError::invalid(
                concat(
                    &[
                        "item ",
                        n.as_str(),
                        ": extent_index ",
                        i.as_str(),
                        " but only ",
                        c.as_str(),
                        " 'iloc' references",
                    ],
                ),
            ),
        );
    }
    Ok(sources[idx as usize - 1])
}

/// Where an extent starts and ends inside a source of `source_len` bytes.
fn span_in(item_id: u32, base: u64, e: Extent, source_len: usize) -> (r: Result<(usize, usize)>)
    ensures
        match r {
            Ok(s) => extent_span(base, e, source_len as nat) == Some((s.0 as int, s.1 as int)),
            Err(e2) => extent_span(base, e, source_len as nat) is None && e2.kind()
                == ErrorKind::Invalid,
        },
{
    let start: u64 = match base.checked_add(e.offset) {
        Some(s) => s,
        None => {
            return Err(HeifError::invalid("iloc offset overflow"));
        },
    };
    let n: String = decimal(item_id as u64);
    let len_text: String = decimal(source_len as u64);
    if start > source_len as u64 {
        let s: String = decimal(start);
        return Err(
            HeifError::invalid(
                concat(
                    &[
                        "item ",
                        n.as_str(),
                        " extent starts at ",
                        s.as_str(),
                        ", past the ",
                        len_text.as_str(),
                        "-byte source",
                    ],
                ),
            ),
        );
    }
    let len: u64 = if e.length == 0 {
        source_len as u64 - start
    } else {
        e.length
    };
    let end: u64 = match start.checked_add(len) {
        Some(s) => s,
        None => {
            return Err(HeifError::invalid("iloc extent end overflow"));
        },
    };
    if end > source_len as u64 {
        let s: String = decimal(end);
        return Err(
            HeifError::invalid(
                concat(
                    &[
                        "item ",
                        n.as_str(),
                        " extent ends at ",
                        s.as_str(),
                        ", past the ",
                        len_text.as_str(),
                        "-byte source",
                    ],
                ),
            ),
        );
    }
    Ok((start as usize, end as usize))
}

/// Spans of `loc`'s extents inside a source of `source_len` bytes.
fn spans_in(loc: &ItemLocation, source_len: usize) -> (r: Result<Vec<(usize, usize)>>)
    ensures
        view_outcome(r) == spans_of(loc@, source_len as nat),
        r matches Ok(v) ==> v@.len() == loc@.extents.len() && forall|k: int|
            0 <= k < v@.len() ==> (#[trigger] v@[k]).0 <= v@[k].1 <= source_len,
{
    let ghost goal = spans_of(loc@, source_len as nat);
    proof {
        lemma_spans(loc@, source_len as nat, 0, 0, Seq::empty());
    }
    let mut out: Vec<(usize, usize)> = Vec::new();
    let mut total: u64 = 0;
    for i in 0..loc.extents.len()
        invariant
            total <= MAX_ITEM_BYTES,
            goal == spans_of(loc@, source_len as nat),
            goal == spans_from(loc@, source_len as nat, i as int, total as int, out@),
    {
        let (start, end) = span_in(loc.item_id, loc.base_offset, loc.extents[i], source_len)?;
        total = total.saturating_add((end - start) as u64);
        if total > MAX_ITEM_BYTES {
            return Err(too_large(loc.item_id));
        }
        out.push((start, end));
    }
    Ok(out)
}

fn concat_spans<'a>(source: &'a [u8], spans: &Vec<(usize, usize)>) -> (r: Cow<'a>)
    requires
        forall|k: int|
            0 <= k < spans@.len() ==> (#[trigger] spans@[k]).0 <= spans@[k].1 <= source@.len(),
    ensures
        r@ == joined(source@, spans@),
        r is Borrowed == (spans@.len() == 1),
{
    let ghost all = spans@;
    proof {
        assert(all.take(0) =~= Seq::empty());
    }
    if spans.len() == 1 {
        proof {
            assert(all.drop_last() =~= Seq::empty());
            assert(joined(source@, all.drop_last()) =~= Seq::empty());
        }
        let r: Cow<'a> = Cow::Borrowed(span(source, spans[0].0, spans[0].1));
        proof {
            assert(joined(source@, all) =~= r@);
        }
        return r;
    }
    let mut v: Vec<u8> = Vec::new();
    for i in 0..spans.len()
        invariant
            all == spans@,
            forall|k: int|
                0 <= k < spans@.len() ==> (#[trigger] spans@[k]).0 <= spans@[k].1 <= source@.len(),
            v@ == joined(source@, all.take(i as int)),
    {
        proof {
            assert(all.take(i + 1).drop_last() =~= all.take(i as int));
        }
        put(&mut v, span(source, spans[i].0, spans[i].1));
    }
    proof {
        assert(all.take(all.len() as int) =~= all);
    }
    Cow::Owned(v)
}

} // verus!
