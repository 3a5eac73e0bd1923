//! Derived image items (ISO/IEC 23008-12 §6.6): the `grid` / `iovl` /
//! `iden` descriptors and the derivation graph rooted at an image item.
//!
//! The graph resolves every `dimg` edge, thumbnails (`thmb`), auxiliary
//! images (`auxl`) and metadata (`cdsc`) for an item, with cycle
//! detection, depth / fan-out / total-node limits, so a hostile file
//! cannot make a reader recurse or allocate without bound. Pixel
//! composition lives in the `compose` module; this module is pure
//! container structure and is part of the standalone surface.
use crate::boxes::{fourcc_eq, fourcc_str, FourCc, Reader};
use crate::bytes::{
    be16, be32, clone_vec, copy_of, copy_vec, enc16, enc32, from_i16, from_i32, lemma_read16, lemma_read32, put16, put32, signed16,
    signed32, unsigned16, unsigned32,
};
use crate::error::{outcome, plain_outcome, ErrorKind, HeifError, Outcome, Result};
use crate::file::{Cow, FileModel, HeifFile};
use crate::meta::{
    reference, ItemInfo, ItemInfoModel, Meta, MetaModel, ITEM_TYPE_GRID, ITEM_TYPE_IDEN, ITEM_TYPE_IOVL, ITEM_TYPE_TMAP,
};
use crate::props::{
    item_properties, urn_kind, AuxC, AuxKind, Ispe, ItemProperties, ItemPropertiesModel, PropertyKind, PropertyModel,
};
use crate::text::{concat, decimal};
use vstd::prelude::*;

pub mod laws;

verus! {

/// Maximum depth of a derivation chain (MIAF §7.3.11.1 allows at most
/// five derivation steps; the HEIF base format is unbounded, so a
/// generous cap protects against cycles that slip past the visited set).
pub const MAX_DERIVATION_DEPTH: usize = 16;

/// Maximum number of input images of one derived item.
pub const MAX_DERIVATION_INPUTS: usize = 0x1_0000;

/// Maximum number of distinct items one derivation graph may touch.
pub const MAX_GRAPH_ITEMS: usize = 0x1_0000;

/// Maximum canvas area (in pixels) a `grid` / `iovl` may declare.
pub const MAX_CANVAS_PIXELS: u64 = 0x4000_0000;

/// `ImageGrid` descriptor (§6.6.2.3.2).
#[derive(Clone, Copy, Debug, PartialEq, Eq)]
pub struct GridDescriptor {
    /// Number of tile rows (`rows_minus_one + 1`).
    pub rows: u16,
    /// Number of tile columns (`columns_minus_one + 1`).
    pub columns: u16,
    /// `output_width`.
    pub output_width: u32,
    /// `output_height`.
    pub output_height: u32,
}

/// Why a canvas of the given size is refused.
pub open spec fn canvas_refusal(w: u32, h: u32) -> Option<ErrorKind> {
    if w == 0 || h == 0 {
        Some(ErrorKind::Invalid)
    } else if w * h > MAX_CANVAS_PIXELS {
        Some(ErrorKind::Exhausted)
    } else {
        None
    }
}

fn check_canvas(what: &str, w: u32, h: u32) -> (r: Result<()>)
    ensures
        match r {
            Ok(_) => canvas_refusal(w, h) is None,
            Err(e) => canvas_refusal(w, h) == Some(e.kind()),
        },
{
    if w == 0 || h == 0 {
        return Err(HeifError::invalid(concat(&[what, ": zero output size"])));
    }
    assert(w * h <= 0xffff_ffff * 0xffff_ffff) by (nonlinear_arith)
        requires
            w <= 0xffff_ffff,
            h <= 0xffff_ffff,
    ;
    assert(w * h >= 0) by (nonlinear_arith);
    if w as u64 * h as u64 > MAX_CANVAS_PIXELS {
        let a: String = decimal(w as u64);
        let b: String = decimal(h as u64);
        let m: String = decimal(MAX_CANVAS_PIXELS);
        return Err(
            HeifError::exhausted(
                concat(
                    &[
                        what,
                        ": canvas ",
                        a.as_str(),
                        "x",
                        b.as_str(),
                        " exceeds ",
                        m.as_str(),
                        " pixels",
                    ],
                ),
            ),
        );
    }
    Ok(())
}

/// The descriptor the body of a `grid` item holds.
pub open spec fn grid_of(b: Seq<u8>) -> Outcome<GridDescriptor> {
    if b.len() < 1 {
        Err(ErrorKind::Invalid)
    } else if b[0] != 0 {
        Err(ErrorKind::Unsupported)
    } else if b.len() < 2 || b.len() < (if b[1] % 2 == 1 {
        12int
    } else {
        8int
    }) {
        Err(ErrorKind::Invalid)
    } else {
        let large = b[1] % 2 == 1;
        let w = if large {
            be32(b, 4)
        } else {
            be16(b, 4) as u32
        };
        let h = if large {
            be32(b, 8)
        } else {
            be16(b, 6) as u32
        };
        match canvas_refusal(w, h) {
            Some(e) => Err(e),
            None => Ok(
                GridDescriptor {
                    rows: (b[2] + 1) as u16,
                    columns: (b[3] + 1) as u16,
                    output_width: w,
                    output_height: h,
                },
            ),
        }
    }
}

impl GridDescriptor {
    /// Whether the sizes need 32-bit fields.
    pub open spec fn large(self) -> bool {
        self.output_width > 0xffff || self.output_height > 0xffff
    }

    /// The item body of the descriptor.
    pub open spec fn bytes(self) -> Seq<u8> {
        let head = Seq::<u8>::empty().push(0u8).push(
            if self.large() {
                1u8
            } else {
                0u8
            },
        ).push(((self.rows - 1) % 0x100) as u8).push(((self.columns - 1) % 0x100) as u8);
        if self.large() {
            head + enc32(self.output_width) + enc32(self.output_height)
        } else {
            head + enc16(self.output_width as u16) + enc16(self.output_height as u16)
        }
    }

    /// Whether the descriptor is one that can be read.
    pub open spec fn fits(self) -> bool {
        &&& 1 <= self.rows <= 256
        &&& 1 <= self.columns <= 256
        &&& canvas_refusal(self.output_width, self.output_height) is None
    }

    /// Parse the item body of a `grid` item.
    pub fn parse(body: &[u8]) -> (res: Result<Self>)
        ensures
            plain_outcome(res) == grid_of(body@),
            res matches Ok(g) ==> g.fits(),
    {
        let mut r: Reader = Reader::new(body);
        let version: u8 = r.u8("grid version")?;
        if version != 0 {
            let v: String = decimal(version as u64);
            return Err(
                HeifError::unsupported(
                    concat(
                        &[
                            "grid version ",
                            v.as_str(),
                            " (readers shall not process unknown versions)",
                        ],
                    ),
                ),
            );
        }
        let flags: u8 = r.u8("grid flags")?;
        let rows: u8 = r.u8("grid rows_minus_one")?;
        let columns: u8 = r.u8("grid columns_minus_one")?;
        let output_width: u32;
        let output_height: u32;
        if flags % 2 == 1 {
            output_width = r.u32("grid output_width")?;
            output_height = r.u32("grid output_height")?;
        } else {
            let w: u16 = r.u16("grid output_width")?;
            let h: u16 = r.u16("grid output_height")?;
            output_width = w as u32;
            output_height = h as u32;
        }
        check_canvas("grid", output_width, output_height)?;
        Ok(
            GridDescriptor {
                rows: rows as u16 + 1,
                columns: columns as u16 + 1,
                output_width,
                output_height,
            },
        )
    }

    /// `reference_count` the `dimg` box shall carry.
    pub fn tile_count(&self) -> (r: usize)
        ensures
            r == self.rows * self.columns,
    {
        assert(self.rows * self.columns <= 0xffff * 0xffff) by (nonlinear_arith)
            requires
                self.rows <= 0xffff,
                self.columns <= 0xffff,
        ;
        assert(self.rows * self.columns >= 0) by (nonlinear_arith);
        self.rows as usize * self.columns as usize
    }

    /// Serialize (16-bit fields when they fit, else 32-bit).
    pub fn to_bytes(&self) -> (b: Vec<u8>)
        requires
            self.rows > 0,
            self.columns > 0,
        ensures
            b@ == self.bytes(),
    {
        let large: bool = self.output_width > 0xffff || self.output_height > 0xffff;
        let mut b: Vec<u8> = Vec::new();
        b.push(0);
        b.push(
            if large {
                1
            } else {
                0
            },
        );
        b.push(((self.rows - 1) % 0x100) as u8);
        b.push(((self.columns - 1) % 0x100) as u8);
        if large {
            put32(&mut b, self.output_width);
            put32(&mut b, self.output_height);
        } else {
            put16(&mut b, self.output_width as u16);
            put16(&mut b, self.output_height as u16);
        }
        b
    }
}

/// Parsing a serialized grid descriptor gives the descriptor back.
#[verifier::rlimit(50)]
pub proof fn law_grid_round_trip(g: GridDescriptor)
    requires
        g.fits(),
    ensures
        grid_of(g.bytes()) == Ok::<GridDescriptor, ErrorKind>(g),
{
    let b = g.bytes();
    assert(b[0] == 0 && b[2] == g.rows - 1 && b[3] == g.columns - 1);
    if g.large() {
        assert(b.subrange(4, 8) =~= enc32(g.output_width));
        assert(b.subrange(8, 12) =~= enc32(g.output_height));
        lemma_read32(b, 4, g.output_width);
        lemma_read32(b, 8, g.output_height);
        assert(b[1] == 1);
    } else {
        assert(b.subrange(4, 6) =~= enc16(g.output_width as u16));
        assert(b.subrange(6, 8) =~= enc16(g.output_height as u16));
        lemma_read16(b, 4, g.output_width as u16);
        lemma_read16(b, 6, g.output_height as u16);
        assert(b[1] == 0);
    }
}

/// `ImageOverlay` descriptor (§6.6.2.2.2).
#[derive(Debug, PartialEq, Eq)]
pub struct OverlayDescriptor {
    /// `canvas_fill_value[4]` — R, G, B (sRGB, 16-bit) and A (0..=65535 opacity).
    pub canvas_fill: [u16; 4],
    /// `output_width`.
    pub output_width: u32,
    /// `output_height`.
    pub output_height: u32,
    /// `(horizontal_offset, vertical_offset)` per input, in `dimg` order.
    pub offsets: Vec<(i32, i32)>,
}

/// Model of [`OverlayDescriptor`].
#[verifier::ext_equal]
pub struct OverlayModel {
    /// `canvas_fill_value[4]` — R, G, B (sRGB, 16-bit) and A (0..=65535 opacity).
    pub canvas_fill: [u16; 4],
    /// `output_width`.
    pub output_width: u32,
    /// `output_height`.
    pub output_height: u32,
    /// `(horizontal_offset, vertical_offset)` per input, in `dimg` order.
    pub offsets: Seq<(i32, i32)>,
}

impl View for OverlayDescriptor {
    type V = OverlayModel;

    open spec fn view(&self) -> OverlayModel {
        OverlayModel {
            canvas_fill: self.canvas_fill,
            output_width: self.output_width,
            output_height: self.output_height,
            offsets: self.offsets@,
        }
    }
}

impl DeepView for OverlayDescriptor {
    type V = OverlayModel;

    open spec fn deep_view(&self) -> OverlayModel {
        self@
    }
}

impl Clone for OverlayDescriptor {
    fn clone(&self) -> (r: Self)
        ensures
            r@ == self@,
    {
        OverlayDescriptor {
            canvas_fill: self.canvas_fill,
            output_width: self.output_width,
            output_height: self.output_height,
            offsets: copy_vec(&self.offsets),
        }
    }
}

/// The offset pair at `p`.
pub open spec fn offset_at(b: Seq<u8>, p: int, large: bool) -> (i32, i32) {
    if large {
        (signed32(be32(b, p)), signed32(be32(b, p + 4)))
    } else {
        (signed16(be16(b, p)) as i32, signed16(be16(b, p + 2)) as i32)
    }
}

/// Bytes of an offset pair.
pub open spec fn pair_len(large: bool) -> int {
    if large {
        8
    } else {
        4
    }
}

/// The descriptor the body of an `iovl` item with `n` inputs holds.
pub open spec fn overlay_of(b: Seq<u8>, n: nat) -> Outcome<OverlayModel> {
    let large = b[1] % 2 == 1;
    let start: int = if large {
        18
    } else {
        14
    };
    let w = if large {
        be32(b, 10)
    } else {
        be16(b, 10) as u32
    };
    let h = if large {
        be32(b, 14)
    } else {
        be16(b, 12) as u32
    };
    if b.len() < 1 {
        Err(ErrorKind::Invalid)
    } else if b[0] != 0 {
        Err(ErrorKind::Unsupported)
    } else if b.len() < 2 || b.len() < start {
        Err(ErrorKind::Invalid)
    } else {
        match canvas_refusal(w, h) {
            Some(e) => Err(e),
            None => if n > MAX_DERIVATION_INPUTS {
                Err(ErrorKind::Exhausted)
            } else if b.len() < start + n * pair_len(large) {
                Err(ErrorKind::Invalid)
            } else {
                Ok(
                    OverlayModel {
                        canvas_fill: [be16(b, 2), be16(b, 4), be16(b, 6), be16(b, 8)],
                        output_width: w,
                        output_height: h,
                        offsets: Seq::new(
                            n,
                            |i: int| offset_at(b, start + i * pair_len(large), large),
                        ),
                    },
                )
            },
        }
    }
}

/// Whether an offset needs 32 bits.
pub open spec fn wide_offset(o: (i32, i32)) -> bool {
    !(-0x8000 <= o.0 <= 0x7fff) || !(-0x8000 <= o.1 <= 0x7fff)
}

/// The bytes of an offset pair.
pub open spec fn offset_bytes(o: (i32, i32), large: bool) -> Seq<u8> {
    if large {
        enc32(unsigned32(o.0)) + enc32(unsigned32(o.1))
    } else {
        enc16(unsigned16(o.0 as i16)) + enc16(unsigned16(o.1 as i16))
    }
}

/// The bytes of the offset pairs.
pub open spec fn offsets_bytes(o: Seq<(i32, i32)>, large: bool) -> Seq<u8>
    decreases o.len(),
{
    if o.len() == 0 {
        Seq::empty()
    } else {
        offsets_bytes(o.drop_last(), large) + offset_bytes(o.last(), large)
    }
}

impl OverlayModel {
    /// Whether a size or an offset needs 32-bit fields.
    pub open spec fn large(self) -> bool {
        self.output_width > 0xffff || self.output_height > 0xffff || exists|i: int|
            0 <= i < self.offsets.len() && wide_offset(#[trigger] self.offsets[i])
    }

    /// The item body of the descriptor.
    pub open spec fn bytes(self) -> Seq<u8> {
        let head = Seq::<u8>::empty().push(0u8).push(
            if self.large() {
                1u8
            } else {
                0u8
            },
        ) + enc16(self.canvas_fill[0]) + enc16(self.canvas_fill[1]) + enc16(self.canvas_fill[2])
            + enc16(self.canvas_fill[3]);
        let sized = if self.large() {
            head + enc32(self.output_width) + enc32(self.output_height)
        } else {
            head + enc16(self.output_width as u16) + enc16(self.output_height as u16)
        };
        sized + offsets_bytes(self.offsets, self.large())
    }
}

fn read_offset(r: &mut Reader, large: bool) -> (res: Result<(i32, i32)>)
    requires
        old(r).wf(),
    ensures
        final(r).wf(),
        final(r).data() == old(r).data(),
        match res {
            Ok(o) => final(r).at() == old(r).at() + pair_len(large) && o == offset_at(
                old(r).data(),
                old(r).at(),
                large,
            ),
            Err(e) => old(r).at() + pair_len(large) > old(r).data().len() && e.kind()
                == ErrorKind::Invalid,
        },
{
    if large {
        let h: i32 = r.i32("iovl horizontal_offset")?;
        let v: i32 = r.i32("iovl vertical_offset")?;
        Ok((h, v))
    } else {
        let h: i16 = r.i16("iovl horizontal_offset")?;
        let v: i16 = r.i16("iovl vertical_offset")?;
        Ok((h as i32, v as i32))
    }
}

impl OverlayDescriptor {
    /// Parse the item body of an `iovl` item; `reference_count` comes
    /// from the item's `dimg` reference.
    pub fn parse(body: &[u8], reference_count: usize) -> (res: Result<Self>)
        ensures
            outcome(res) == overlay_of(body@, reference_count as nat),
    {
        let ghost b = body@;
        let mut r: Reader = Reader::new(body);
        let version: u8 = r.u8("iovl version")?;
        if version != 0 {
            let v: String = decimal(version as u64);
            return Err(HeifError::unsupported(concat(&["iovl version ", v.as_str()])));
        }
        let flags: u8 = r.u8("iovl flags")?;
        let large: bool = flags % 2 == 1;
        let c0: u16 = r.u16("iovl canvas_fill_value")?;
        let c1: u16 = r.u16("iovl canvas_fill_value")?;
        let c2: u16 = r.u16("iovl canvas_fill_value")?;
        let c3: u16 = r.u16("iovl canvas_fill_value")?;
        let canvas_fill: [u16; 4] = [c0, c1, c2, c3];
        let output_width: u32;
        let output_height: u32;
        if large {
            output_width = r.u32("iovl output_width")?;
            output_height = r.u32("iovl output_height")?;
        } else {
            let w: u16 = r.u16("iovl output_width")?;
            let h: u16 = r.u16("iovl output_height")?;
            output_width = w as u32;
            output_height = h as u32;
        }
        check_canvas("iovl", output_width, output_height)?;
        if reference_count > MAX_DERIVATION_INPUTS {
            let n: String = decimal(reference_count as u64);
            let m: String = decimal(MAX_DERIVATION_INPUTS as u64);
            return Err(
                HeifError::exhausted(
                    concat(&["iovl: ", n.as_str(), " inputs exceeds ", m.as_str()]),
                ),
            );
        }
        let ghost start = r.at();
        let ghost w = pair_len(large);
        let mut offsets: Vec<(i32, i32)> = Vec::new();
        for i in 0..reference_count
            invariant
                r.wf(),
                r.data() == b,
                w == pair_len(large),
                r.at() == start + i * w,
                offsets@.len() == i,
                forall|k: int| 0 <= k < i ==> offsets@[k] == #[trigger] offset_at(
                    b,
                    start + k * w,
                    large,
                ),
                b == body@,
                b.len() >= start,
                start == (if large {
                    18int
                } else {
                    14int
                }),
                reference_count <= MAX_DERIVATION_INPUTS,
                b.len() >= 2,
                b[0] == 0,
                large == (b[1] % 2 == 1),
                canvas_refusal(
                    if large {
                        be32(b, 10)
                    } else {
                        be16(b, 10) as u32
                    },
                    if large {
                        be32(b, 14)
                    } else {
                        be16(b, 12) as u32
                    },
                ) is None,
        {
            proof {
                assert((i + 1) * w == i * w + w) by (nonlinear_arith);
                assert(reference_count * w >= (i + 1) * w) by (nonlinear_arith)
                    requires
                        i + 1 <= reference_count,
                        w == 8 || w == 4,
                ;
            }
            let o: (i32, i32) = read_offset(&mut r, large)?;
            offsets.push(o);
        }
        let x: OverlayDescriptor = OverlayDescriptor {
            canvas_fill,
            output_width,
            output_height,
            offsets,
        };
        proof {
            let want = overlay_of(b, reference_count as nat)->Ok_0;
            assert(x@.offsets =~= want.offsets);
        }
        Ok(x)
    }

    /// Serialize (16-bit fields when everything fits, else 32-bit).
    pub fn to_bytes(&self) -> (b: Vec<u8>)
        ensures
            b@ == self@.bytes(),
    {
        let mut large: bool = self.output_width > 0xffff || self.output_height > 0xffff;
        for i in 0..self.offsets.len()
            invariant
                large == (self.output_width > 0xffff || self.output_height > 0xffff || exists|k: int|
                    0 <= k < i && wide_offset(#[trigger] self@.offsets[k])),
        {
            let o: (i32, i32) = self.offsets[i];
            assert(self@.offsets[i as int] == o);
            if !(-0x8000 <= o.0 && o.0 <= 0x7fff) || !(-0x8000 <= o.1 && o.1 <= 0x7fff) {
                assert(wide_offset(self@.offsets[i as int]));
                large = true;
            }
        }
        assert(large == self@.large());
        let mut b: Vec<u8> = Vec::new();
        b.push(0);
        b.push(
            if large {
                1
            } else {
                0
            },
        );
        put16(&mut b, self.canvas_fill[0]);
        put16(&mut b, self.canvas_fill[1]);
        put16(&mut b, self.canvas_fill[2]);
        put16(&mut b, self.canvas_fill[3]);
        if large {
            put32(&mut b, self.output_width);
            put32(&mut b, self.output_height);
        } else {
            put16(&mut b, self.output_width as u16);
            put16(&mut b, self.output_height as u16);
        }
        let ghost start = b@;
        let ghost all = self.offsets@;
        proof {
            assert(all.take(0) =~= Seq::empty());
            assert(b@ =~= start + offsets_bytes(all.take(0), large));
        }
        for i in 0..self.offsets.len()
            invariant
                all == self.offsets@,
                large == self@.large(),
                b@ == start + offsets_bytes(all.take(i as int), large),
        {
            let o: (i32, i32) = self.offsets[i];
            proof {
                assert(all.take(i + 1).drop_last() =~= all.take(i as int));
            }
            if large {
                put32(&mut b, from_i32(o.0));
                put32(&mut b, from_i32(o.1));
            } else {
                proof {
                    assert(!wide_offset(self@.offsets[i as int]));
                }
                put16(&mut b, from_i16(o.0 as i16));
                put16(&mut b, from_i16(o.1 as i16));
            }
            proof {
                assert(b@ =~= start + offsets_bytes(all.take(i + 1), large));
            }
        }
        proof {
            assert(all.take(all.len() as int) =~= all);
        }
        b
    }
}

proof fn lemma_offsets(a: Seq<u8>, o: Seq<(i32, i32)>, large: bool)
    requires
        !large ==> forall|i: int| 0 <= i < o.len() ==> !wide_offset(#[trigger] o[i]),
    ensures
        offsets_bytes(o, large).len() == o.len() * pair_len(large),
        forall|i: int|
            0 <= i < o.len() ==> #[trigger] offset_at(
                a + offsets_bytes(o, large),
                a.len() + i * pair_len(large),
                large,
            ) == o[i],
    decreases o.len(),
{
    let w = pair_len(large);
    if o.len() > 0 {
        let d = o.drop_last();
        let last = o.last();
        let x = a + offsets_bytes(o, large);
        lemma_offsets(a, d, large);
        assert(o.len() * w == d.len() * w + w) by (nonlinear_arith)
            requires
                o.len() == d.len() + 1,
        ;
        let n = a.len() + d.len() * w;
        if large {
            assert(x.subrange(n, n + 4) =~= enc32(unsigned32(last.0)));
            assert(x.subrange(n + 4, n + 8) =~= enc32(unsigned32(last.1)));
            lemma_read32(x, n, unsigned32(last.0));
            lemma_read32(x, n + 4, unsigned32(last.1));
        } else {
            assert(!wide_offset(o[o.len() - 1]));
            assert(x.subrange(n, n + 2) =~= enc16(unsigned16(last.0 as i16)));
            assert(x.subrange(n + 2, n + 4) =~= enc16(unsigned16(last.1 as i16)));
            lemma_read16(x, n, unsigned16(last.0 as i16));
            lemma_read16(x, n + 2, unsigned16(last.1 as i16));
        }
        assert forall|i: int| 0 <= i < o.len() implies #[trigger] offset_at(
            x,
            a.len() + i * w,
            large,
        ) == o[i] by {
            if i < d.len() {
                let y = a + offsets_bytes(d, large);
                assert(offset_at(y, a.len() + i * w, large) == d[i]);
                assert(0 <= i * w && i * w + w <= d.len() * w) by (nonlinear_arith)
                    requires
                        0 <= i,
                        i + 1 <= d.len(),
                        w == 8 || w == 4,
                ;
                let q = a.len() + i * w;
                assert forall|k: int| q <= k < q + w implies #[trigger] x[k] == y[k] by {}
                assert(offset_at(x, q, large) == offset_at(y, q, large));
            }
        }
    }
}

/// Parsing a serialized overlay descriptor gives the descriptor back.
#[verifier::rlimit(50)]
pub proof fn law_overlay_round_trip(o: OverlayModel)
    requires
        canvas_refusal(o.output_width, o.output_height) is None,
        o.offsets.len() <= MAX_DERIVATION_INPUTS,
    ensures
        overlay_of(o.bytes(), o.offsets.len()) == Ok::<OverlayModel, ErrorKind>(o),
{
    let b = o.bytes();
    let large = o.large();
    let c = o.canvas_fill;
    let head = Seq::<u8>::empty().push(0u8).push(
        if large {
            1u8
        } else {
            0u8
        },
    ) + enc16(c[0]) + enc16(c[1]) + enc16(c[2]) + enc16(c[3]);
    let sized = if large {
        head + enc32(o.output_width) + enc32(o.output_height)
    } else {
        head + enc16(o.output_width as u16) + enc16(o.output_height as u16)
    };
    lemma_offsets(sized, o.offsets, large);
    assert(b == sized + offsets_bytes(o.offsets, large));
    assert(b[0] == 0 && (b[1] % 2 == 1) == large);
    assert(b.subrange(2, 4) =~= enc16(c[0]));
    assert(b.subrange(4, 6) =~= enc16(c[1]));
    assert(b.subrange(6, 8) =~= enc16(c[2]));
    assert(b.subrange(8, 10) =~= enc16(c[3]));
    lemma_read16(b, 2, c[0]);
    lemma_read16(b, 4, c[1]);
    lemma_read16(b, 6, c[2]);
    lemma_read16(b, 8, c[3]);
    if large {
        assert(b.subrange(10, 14) =~= enc32(o.output_width));
        assert(b.subrange(14, 18) =~= enc32(o.output_height));
        lemma_read32(b, 10, o.output_width);
        lemma_read32(b, 14, o.output_height);
    } else {
        assert(b.subrange(10, 12) =~= enc16(o.output_width as u16));
        assert(b.subrange(12, 14) =~= enc16(o.output_height as u16));
        lemma_read16(b, 10, o.output_width as u16);
        lemma_read16(b, 12, o.output_height as u16);
    }
    let got = overlay_of(b, o.offsets.len())->Ok_0;
    assert(got.canvas_fill =~= c);
    assert(got.offsets =~= o.offsets) by {
        assert forall|i: int| 0 <= i < o.offsets.len() implies got.offsets[i] == o.offsets[i] by {
            assert(offset_at(b, sized.len() + i * pair_len(large), large) == o.offsets[i]);
        }
    }
}

/// What an image item is, once its body has been interpreted.
#[derive(Debug, PartialEq, Eq)]
pub enum ImageKind {
    /// A coded image item (`hvc1`, `av01`, …).
    Coded(FourCc),
    /// A `grid` derived image.
    Grid(GridDescriptor),
    /// An `iovl` derived image.
    Overlay(OverlayDescriptor),
    /// An `iden` derived image.
    Identity,
    /// A `tmap` (tone map / gain map) derived image; body kept raw.
    ToneMap(Vec<u8>),
}

/// Model of [`ImageKind`].
#[verifier::ext_equal]
pub enum KindModel {
    /// A coded image item.
    Coded(FourCc),
    /// A `grid` derived image.
    Grid(GridDescriptor),
    /// An `iovl` derived image.
    Overlay(OverlayModel),
    /// An `iden` derived image.
    Identity,
    /// A `tmap` derived image.
    ToneMap(Seq<u8>),
}

impl View for ImageKind {
    type V = KindModel;

    open spec fn view(&self) -> KindModel {
        match self {
            ImageKind::Coded(t) => KindModel::Coded(*t),
            ImageKind::Grid(g) => KindModel::Grid(*g),
            ImageKind::Overlay(o) => KindModel::Overlay(o@),
            ImageKind::Identity => KindModel::Identity,
            ImageKind::ToneMap(b) => KindModel::ToneMap(b@),
        }
    }
}

impl DeepView for ImageKind {
    type V = KindModel;

    open spec fn deep_view(&self) -> KindModel {
        self@
    }
}

impl Clone for ImageKind {
    fn clone(&self) -> (r: Self)
        ensures
            r@ == self@,
    {
        match self {
            ImageKind::Coded(t) => ImageKind::Coded(*t),
            ImageKind::Grid(g) => ImageKind::Grid(*g),
            ImageKind::Overlay(o) => ImageKind::Overlay(o.clone()),
            ImageKind::Identity => ImageKind::Identity,
            ImageKind::ToneMap(b) => ImageKind::ToneMap(copy_of(b.as_slice())),
        }
    }
}

/// One node of a derivation graph.
#[derive(Debug, PartialEq, Eq)]
pub struct ImageNode {
    /// The item.
    pub item: ItemInfo,
    /// The item's kind.
    pub kind: ImageKind,
    /// Typed properties of the item.
    pub properties: ItemProperties,
    /// Input images (`dimg` targets), in reference order.
    pub inputs: Vec<ImageNode>,
    /// Alpha auxiliary attached through `auxl`, when present.
    pub alpha: Option<Box<ImageNode>>,
    /// Depth auxiliary attached through `auxl`, when present.
    pub depth: Option<Box<ImageNode>>,
    /// Other auxiliaries (`auxl` with an unrecognized URN).
    pub other_auxiliaries: Vec<ImageNode>,
    /// `true` when the master carries a `prem` reference to `alpha`.
    pub premultiplied_alpha: bool,
    /// Thumbnails (`thmb` sources), in file order.
    pub thumbnails: Vec<ImageNode>,
    /// Metadata items (`cdsc` sources) describing this image.
    pub metadata: Vec<ItemInfo>,
    /// Depth of this node in the derivation chain (0 = root).
    pub depth_in_chain: usize,
}

/// Model of [`ImageNode`].
#[verifier::ext_equal]
pub struct NodeModel {
    /// The item.
    pub item: ItemInfoModel,
    /// The item's kind.
    pub kind: KindModel,
    /// Typed properties of the item.
    pub properties: ItemPropertiesModel,
    /// Input images, in reference order.
    pub inputs: Seq<NodeModel>,
    /// Alpha auxiliary.
    pub alpha: Option<Box<NodeModel>>,
    /// Depth auxiliary.
    pub depth: Option<Box<NodeModel>>,
    /// Other auxiliaries.
    pub other_auxiliaries: Seq<NodeModel>,
    /// Whether the master carries a `prem` reference to the alpha auxiliary.
    pub premultiplied_alpha: bool,
    /// Thumbnails, in file order.
    pub thumbnails: Seq<NodeModel>,
    /// Metadata items describing this image.
    pub metadata: Seq<ItemInfoModel>,
    /// Depth of this node in the derivation chain.
    pub depth_in_chain: usize,
}

/// The models of a list of nodes.
pub open spec fn node_models(v: Seq<ImageNode>) -> Seq<NodeModel>
    decreases v,
{
    Seq::new(
        v.len(),
        |i: int|
            if 0 <= i < v.len() {
                v[i].model()
            } else {
                arbitrary()
            },
    )
}

/// The model of a node that may be absent.
pub open spec fn option_model(n: Option<Box<ImageNode>>) -> Option<Box<NodeModel>>
    decreases n,
{
    match n {
        Some(x) => Some(Box::new(x.model())),
        None => None,
    }
}

impl ImageNode {
    /// The model of the node.
    pub open spec fn model(self) -> NodeModel
        decreases self,
    {
        NodeModel {
            item: self.item@,
            kind: self.kind@,
            properties: self.properties@,
            inputs: node_models(self.inputs@),
            alpha: option_model(self.alpha),
            depth: option_model(self.depth),
            other_auxiliaries: node_models(self.other_auxiliaries@),
            premultiplied_alpha: self.premultiplied_alpha,
            thumbnails: node_models(self.thumbnails@),
            metadata: self.metadata.deep_view(),
            depth_in_chain: self.depth_in_chain,
        }
    }
}

impl View for ImageNode {
    type V = NodeModel;

    open spec fn view(&self) -> NodeModel {
        self.model()
    }
}

impl DeepView for ImageNode {
    type V = NodeModel;

    open spec fn deep_view(&self) -> NodeModel {
        self.model()
    }
}

fn clone_node(n: &ImageNode) -> (r: ImageNode)
    ensures
        r@ == n@,
    decreases *n,
{
    let inputs: Vec<ImageNode> = clone_nodes(&n.inputs);
    let alpha: Option<Box<ImageNode>> = match &n.alpha {
        Some(x) => Some(Box::new(clone_node(x))),
        None => None,
    };
    let depth: Option<Box<ImageNode>> = match &n.depth {
        Some(x) => Some(Box::new(clone_node(x))),
        None => None,
    };
    let other_auxiliaries: Vec<ImageNode> = clone_nodes(&n.other_auxiliaries);
    let thumbnails: Vec<ImageNode> = clone_nodes(&n.thumbnails);
    ImageNode {
        item: n.item.clone(),
        kind: n.kind.clone(),
        properties: n.properties.clone(),
        inputs,
        alpha,
        depth,
        other_auxiliaries,
        premultiplied_alpha: n.premultiplied_alpha,
        thumbnails,
        metadata: clone_vec(&n.metadata),
        depth_in_chain: n.depth_in_chain,
    }
}

fn clone_nodes(v: &Vec<ImageNode>) -> (r: Vec<ImageNode>)
    ensures
        node_models(r@) == node_models(v@),
    decreases v@,
{
    let mut r: Vec<ImageNode> = Vec::new();
    for i in 0..v.len()
        invariant
            r@.len() == i,
            forall|j: int| 0 <= j < i ==> (#[trigger] r@[j])@ == v@[j]@,
        decreases v.len() - i,
    {
        r.push(clone_node(&v[i]));
    }
    proof {
        assert(node_models(r@) =~= node_models(v@));
    }
    r
}

impl Clone for ImageNode {
    fn clone(&self) -> (r: Self)
        ensures
            r@ == self@,
    {
        clone_node(self)
    }
}

/// The size `ispe` declares.
pub open spec fn declared_size(p: ItemPropertiesModel) -> Option<(u32, u32)> {
    match p.first(PropertyKind::Ispe) {
        Some(PropertyModel::Ispe(i)) => Some((i.width, i.height)),
        _ => None,
    }
}

/// The reconstructed size of a node: `ispe`, else the canvas of the derivation
/// or the output size of the first input.
pub open spec fn size_before(n: NodeModel) -> Outcome<(u32, u32)>
    decreases n, 0int,
{
    match declared_size(n.properties) {
        Some(s) => Ok(s),
        None => match n.kind {
            KindModel::Grid(g) => Ok((g.output_width, g.output_height)),
            KindModel::Overlay(o) => Ok((o.output_width, o.output_height)),
            KindModel::Identity => first_input_size(n),
            KindModel::ToneMap(_) => first_input_size(n),
            KindModel::Coded(_) => Err(ErrorKind::Invalid),
        },
    }
}

/// The output size of the first input.
pub open spec fn first_input_size(n: NodeModel) -> Outcome<(u32, u32)>
    decreases n.inputs, 2int,
{
    if n.inputs.len() > 0 {
        size_after(n.inputs[0])
    } else {
        Err(ErrorKind::Invalid)
    }
}

/// The output size of a node: the reconstructed size after its
/// transformations.
pub open spec fn size_after(n: NodeModel) -> Outcome<(u32, u32)>
    decreases n, 1int,
{
    match size_before(n) {
        Err(e) => Err(e),
        Ok(s) => n.properties.output_size(s, false),
    }
}

/// The coded nodes reachable through inputs, in derivation order.
pub open spec fn coded_nodes(n: NodeModel) -> Seq<NodeModel>
    decreases n, 0int,
{
    let here = if n.kind is Coded {
        seq![n]
    } else {
        Seq::empty()
    };
    here + coded_from(n.inputs, 0)
}

/// The coded nodes of a list from `i` on.
pub open spec fn coded_from(v: Seq<NodeModel>, i: int) -> Seq<NodeModel>
    decreases v, v.len() - i,
{
    if 0 <= i < v.len() {
        coded_nodes(v[i]) + coded_from(v, i + 1)
    } else {
        Seq::empty()
    }
}

/// The item types from a node down its first inputs.
pub open spec fn chain_of(n: NodeModel) -> Seq<FourCc>
    decreases n,
{
    if n.inputs.len() > 0 {
        seq![n.item.item_type] + chain_of(n.inputs[0])
    } else {
        seq![n.item.item_type]
    }
}

/// The models of a list of references to nodes.
pub open spec fn node_views(v: Seq<&ImageNode>) -> Seq<NodeModel> {
    Seq::new(v.len(), |i: int| v[i]@)
}

impl ImageNode {
    /// `ispe` of the reconstructed image, when declared.
    pub fn ispe(&self) -> (r: Option<(u32, u32)>)
        ensures
            r == declared_size(self@.properties),
    {
        match self.properties.ispe() {
            Some(i) => Some((i.width, i.height)),
            None => None,
        }
    }

    /// Reconstructed size: `ispe` when declared, else the derivation's
    /// canvas or the single input's output size.
    pub fn reconstructed_size(&self) -> (r: Result<(u32, u32)>)
        ensures
            plain_outcome(r) == size_before(self@),
        decreases self, 0int,
    {
        if let Some(s) = self.ispe() {
            return Ok(s);
        }
        match &self.kind {
            ImageKind::Grid(g) => Ok((g.output_width, g.output_height)),
            ImageKind::Overlay(o) => Ok((o.output_width, o.output_height)),
            ImageKind::Identity | ImageKind::ToneMap(_) => {
                if self.inputs.len() > 0 {
                    assert(self@.inputs[0] == self.inputs@[0]@);
                    self.inputs[0].output_size()
                } else {
                    let n: String = decimal(self.item.id as u64);
                    Err(
                        HeifError::invalid(
                            concat(&["item ", n.as_str(), ": derived image without inputs"]),
                        ),
                    )
                }
            },
            ImageKind::Coded(t) => {
                let n: String = decimal(self.item.id as u64);
                let c: String = fourcc_str(t);
                Err(
                    HeifError::invalid(
                        concat(
                            &[
                                "item ",
                                n.as_str(),
                                " ('",
                                c.as_str(),
                                "'): no ispe property (HEIF §6.5.3 requires one)",
                            ],
                        ),
                    ),
                )
            },
        }
    }

    /// Output size after this item's transformative properties (§6.3).
    pub fn output_size(&self) -> (r: Result<(u32, u32)>)
        ensures
            plain_outcome(r) == size_after(self@),
        decreases self, 1int,
    {
        let rec: (u32, u32) = self.reconstructed_size()?;
        self.properties.output_size(rec, false)
    }

    /// Every coded item reachable through `dimg` edges (this node
    /// included when coded), in derivation order.
    pub fn coded_items(&self) -> (r: Vec<&ImageNode>)
        ensures
            node_views(r@) == coded_nodes(self@),
    {
        let mut out: Vec<&ImageNode> = Vec::new();
        proof {
            assert(node_views(out@) =~= Seq::empty());
        }
        self.collect_coded(&mut out);
        proof {
            assert(Seq::<NodeModel>::empty() + coded_nodes(self@) =~= coded_nodes(self@));
        }
        out
    }

    fn collect_coded<'a>(&'a self, out: &mut Vec<&'a ImageNode>)
        ensures
            node_views(final(out)@) == node_views(old(out)@) + coded_nodes(self@),
        decreases self,
    {
        let ghost start = node_views(out@);
        let ghost all = self@.inputs;
        let ghost here = if self@.kind is Coded {
            seq![self@]
        } else {
            Seq::empty()
        };
        if matches!(self.kind, ImageKind::Coded(_)) {
            out.push(self);
        }
        proof {
            assert(node_views(out@) =~= start + here);
            assert(start + here + coded_from(all, 0) =~= start + coded_nodes(self@));
        }
        for i in 0..self.inputs.len()
            invariant
                all == self@.inputs,
                node_views(out@) + coded_from(all, i as int) == start + coded_nodes(self@),
            decreases self.inputs.len() - i,
        {
            assert(all[i as int] == self.inputs@[i as int]@);
            let ghost before = node_views(out@);
            self.inputs[i].collect_coded(out);
            proof {
                assert(before + coded_nodes(all[i as int]) + coded_from(all, i + 1) =~= before
                    + coded_from(all, i as int));
            }
        }
        proof {
            assert(node_views(out@) =~= node_views(out@) + coded_from(all, all.len() as int));
        }
    }

    /// The derivation chain kinds from this node down to the coded
    /// leaves (first input only), e.g. `[iovl, grid, hvc1]`.
    pub fn chain_types(&self) -> (r: Vec<FourCc>)
        ensures
            r@ == chain_of(self@),
        decreases self,
    {
        let mut v: Vec<FourCc> = Vec::new();
        v.push(self.item.item_type);
        if self.inputs.len() > 0 {
            assert(self@.inputs[0] == self.inputs@[0]@);
            let mut rest: Vec<FourCc> = self.inputs[0].chain_types();
            v.append(&mut rest);
        }
        proof {
            assert(v@ =~= chain_of(self@));
        }
        v
    }
}

/// What an image item is: its descriptor read from its data, checked against
/// the number of its inputs.
pub open spec fn kind_of_item(f: FileModel, id: u32, t: FourCc, inputs: nat) -> Outcome<KindModel> {
    if t == ITEM_TYPE_GRID {
        match f.item_bytes(id) {
            Err(e) => Err(e),
            Ok(b) => match grid_of(b) {
                Err(e) => Err(e),
                Ok(g) => if g.rows * g.columns != inputs {
                    Err(ErrorKind::Invalid)
                } else {
                    Ok(KindModel::Grid(g))
                },
            },
        }
    } else if t == ITEM_TYPE_IOVL {
        match f.item_bytes(id) {
            Err(e) => Err(e),
            Ok(b) => match overlay_of(b, inputs) {
                Err(e) => Err(e),
                Ok(o) => Ok(KindModel::Overlay(o)),
            },
        }
    } else if t == ITEM_TYPE_IDEN {
        if inputs != 1 {
            Err(ErrorKind::Invalid)
        } else {
            Ok(KindModel::Identity)
        }
    } else if t == ITEM_TYPE_TMAP {
        if inputs != 2 {
            Err(ErrorKind::Invalid)
        } else {
            match f.item_bytes(id) {
                Err(e) => Err(e),
                Ok(b) => Ok(KindModel::ToneMap(b)),
            }
        }
    } else if inputs != 0 {
        Err(ErrorKind::Invalid)
    } else {
        Ok(KindModel::Coded(t))
    }
}

/// The auxiliaries of a node.
#[verifier::ext_equal]
pub struct AuxModel {
    /// The first alpha auxiliary.
    pub alpha: Option<Box<NodeModel>>,
    /// The first depth auxiliary.
    pub depth: Option<Box<NodeModel>>,
    /// The others, in order.
    pub other: Seq<NodeModel>,
    /// Whether the master is premultiplied by the alpha auxiliary.
    pub premultiplied: bool,
}

/// The kind of auxiliary a node is, when it declares one.
pub open spec fn aux_kind(p: ItemPropertiesModel) -> Option<AuxKind> {
    match p.first(PropertyKind::AuxC) {
        Some(PropertyModel::AuxC(a)) => Some(urn_kind(a.aux_type)),
        _ => None,
    }
}

impl AuxModel {
    /// No auxiliaries.
    pub open spec fn none() -> AuxModel {
        AuxModel { alpha: None, depth: None, other: Seq::empty(), premultiplied: false }
    }

    /// The auxiliaries with one more.
    pub open spec fn with(self, meta: MetaModel, master: u32, id: u32, n: NodeModel) -> AuxModel {
        let k = aux_kind(n.properties);
        if k == Some(AuxKind::Alpha) && self.alpha is None {
            AuxModel {
                alpha: Some(Box::new(n)),
                premultiplied: meta.references_from(master, reference::PREM).contains(id),
                ..self
            }
        } else if k == Some(AuxKind::Depth) && self.depth is None {
            AuxModel { depth: Some(Box::new(n)), ..self }
        } else {
            AuxModel { other: self.other.push(n), ..self }
        }
    }
}

/// The items of a list of ids that exist.
pub open spec fn known_items(meta: MetaModel, ids: Seq<u32>) -> Seq<ItemInfoModel>
    decreases ids.len(),
{
    if ids.len() == 0 {
        Seq::empty()
    } else {
        match meta.item(ids.last()) {
            Some(x) => known_items(meta, ids.drop_last()).push(x),
            None => known_items(meta, ids.drop_last()),
        }
    }
}

/// The graph rooted at `id`, reached through the items in `stack`, and what is
/// left of the budget of nodes.
pub open spec fn node_at(
    f: FileModel,
    meta: MetaModel,
    id: u32,
    depth: int,
    stack: Seq<u32>,
    budget: int,
) -> Outcome<(NodeModel, int)>
    decreases MAX_DERIVATION_DEPTH + 1 - depth, 2int, 0int,
{
    if depth > MAX_DERIVATION_DEPTH {
        Err(ErrorKind::Exhausted)
    } else if stack.contains(id) {
        Err(ErrorKind::Invalid)
    } else if budget <= 0 {
        Err(ErrorKind::Exhausted)
    } else {
        match meta.item(id) {
            None => Err(ErrorKind::Invalid),
            Some(item) => if !item.image() {
                Err(ErrorKind::Unsupported)
            } else {
                match item_properties(meta, id) {
                    Err(e) => Err(e),
                    Ok(properties) => {
                        let ids = meta.references_from(id, reference::DIMG);
                        if ids.len() > MAX_DERIVATION_INPUTS {
                            Err(ErrorKind::Exhausted)
                        } else {
                            match kind_of_item(f, id, item.item_type, ids.len()) {
                                Err(e) => Err(e),
                                Ok(kind) => children_of(
                                    f,
                                    meta,
                                    id,
                                    depth,
                                    stack.push(id),
                                    budget - 1,
                                    item,
                                    kind,
                                    properties,
                                ),
                            }
                        }
                    },
                }
            },
        }
    }
}

/// The node of an item once its inputs, auxiliaries and thumbnails are built.
pub open spec fn children_of(
    f: FileModel,
    meta: MetaModel,
    id: u32,
    depth: int,
    stack: Seq<u32>,
    budget: int,
    item: ItemInfoModel,
    kind: KindModel,
    properties: ItemPropertiesModel,
) -> Outcome<(NodeModel, int)>
    decreases MAX_DERIVATION_DEPTH + 1 - depth, 1int, 0int,
{
    let ids = meta.references_from(id, reference::DIMG);
    match nodes_from(f, meta, ids, 0, depth, stack, budget, Seq::empty()) {
        Err(e) => Err(e),
        Ok((inputs, b1)) => match aux_from(
            f,
            meta,
            id,
            meta.references_to(id, reference::AUXL),
            0,
            depth,
            stack,
            b1,
            AuxModel::none(),
        ) {
            Err(e) => Err(e),
            Ok((aux, b2)) => match nodes_from(
                f,
                meta,
                meta.references_to(id, reference::THMB),
                0,
                depth,
                stack,
                b2,
                Seq::empty(),
            ) {
                Err(e) => Err(e),
                Ok((thumbnails, b3)) => Ok(
                    (
                        NodeModel {
                            item,
                            kind,
                            properties,
                            inputs,
                            alpha: aux.alpha,
                            depth: aux.depth,
                            other_auxiliaries: aux.other,
                            premultiplied_alpha: aux.premultiplied,
                            thumbnails,
                            metadata: known_items(meta, meta.references_to(id, reference::CDSC)),
                            depth_in_chain: depth as usize,
                        },
                        b3,
                    ),
                ),
            },
        },
    }
}

/// The nodes of the ids from `i` on, after those in `acc`.
pub open spec fn nodes_from(
    f: FileModel,
    meta: MetaModel,
    ids: Seq<u32>,
    i: int,
    depth: int,
    stack: Seq<u32>,
    budget: int,
    acc: Seq<NodeModel>,
) -> Outcome<(Seq<NodeModel>, int)>
    decreases MAX_DERIVATION_DEPTH + 1 - depth, 0int, ids.len() - i,
{
    if i >= ids.len() || depth > MAX_DERIVATION_DEPTH {
        Ok((acc, budget))
    } else {
        match node_at(f, meta, ids[i], depth + 1, stack, budget) {
            Err(e) => Err(e),
            Ok((n, left)) => nodes_from(f, meta, ids, i + 1, depth, stack, left, acc.push(n)),
        }
    }
}

/// The auxiliaries of the ids from `i` on, added to `acc`.
pub open spec fn aux_from(
    f: FileModel,
    meta: MetaModel,
    master: u32,
    ids: Seq<u32>,
    i: int,
    depth: int,
    stack: Seq<u32>,
    budget: int,
    acc: AuxModel,
) -> Outcome<(AuxModel, int)>
    decreases MAX_DERIVATION_DEPTH + 1 - depth, 0int, ids.len() - i,
{
    if i >= ids.len() || depth > MAX_DERIVATION_DEPTH {
        Ok((acc, budget))
    } else {
        match node_at(f, meta, ids[i], depth + 1, stack, budget) {
            Err(e) => Err(e),
            Ok((n, left)) => aux_from(
                f,
                meta,
                master,
                ids,
                i + 1,
                depth,
                stack,
                left,
                acc.with(meta, master, ids[i], n),
            ),
        }
    }
}

/// The derivation graph rooted at an item.
pub open spec fn graph_of(f: FileModel, id: u32) -> Outcome<NodeModel> {
    match f.meta {
        None => Err(ErrorKind::Invalid),
        Some(meta) => match node_at(f, meta, id, 0, Seq::empty(), MAX_GRAPH_ITEMS as int) {
            Err(e) => Err(e),
            Ok((n, _)) => Ok(n),
        },
    }
}

/// Build the derivation graph rooted at `item_id`.
pub fn build_graph(file: &HeifFile, item_id: u32) -> (r: Result<ImageNode>)
    ensures
        outcome(r) == graph_of(file@, item_id),
{
    let meta: &Meta = file.meta()?;
    let mut budget: usize = MAX_GRAPH_ITEMS;
    let mut stack: Vec<u32> = Vec::new();
    build_node(file, meta, item_id, 0, &mut stack, &mut budget)
}

/// Build the derivation graph rooted at the primary item.
pub fn build_primary_graph(file: &HeifFile) -> (r: Result<ImageNode>)
    ensures
        outcome(r) == (match file@.primary() {
            Some(item) => graph_of(file@, item.id),
            None => Err(ErrorKind::Invalid),
        }),
{
    let primary: &ItemInfo = file.primary_item()?;
    build_graph(file, primary.id)
}

/// What building gave: the model and the budget left, or the class of an error.
pub open spec fn built<M>(r: Outcome<M>, budget: usize) -> Outcome<(M, int)> {
    match r {
        Ok(m) => Ok((m, budget as int)),
        Err(e) => Err(e),
    }
}

fn about_item(before: &str, item_id: u32, after: &str) -> (s: String) {
    let n: String = decimal(item_id as u64);
    concat(&[before, n.as_str(), after])
}

fn build_node(
    file: &HeifFile,
    meta: &Meta,
    item_id: u32,
    depth: usize,
    stack: &mut Vec<u32>,
    budget: &mut usize,
) -> (r: Result<ImageNode>)
    ensures
        built(outcome(r), *final(budget)) == node_at(
            file@,
            meta@,
            item_id,
            depth as int,
            old(stack)@,
            *old(budget) as int,
        ),
        r is Ok ==> final(stack)@ == old(stack)@,
    decreases MAX_DERIVATION_DEPTH + 1 - depth, 2int,
{
    if depth > MAX_DERIVATION_DEPTH {
        let m: String = decimal(MAX_DERIVATION_DEPTH as u64);
        let a: String = about_item("derivation chain at item ", item_id, " deeper than ");
        return Err(HeifError::exhausted(concat(&[a.as_str(), m.as_str()])));
    }
    if crate::meta::contains_id(stack, item_id) {
        return Err(
            HeifError::invalid(about_item("derivation cycle: item ", item_id, " reaches itself")),
        );
    }
    if *budget == 0 {
        let m: String = decimal(MAX_GRAPH_ITEMS as u64);
        return Err(
            HeifError::exhausted(
                concat(&["derivation graph touches more than ", m.as_str(), " items"]),
            ),
        );
    }
    *budget = *budget - 1;
    let item: ItemInfo = match meta.item(item_id) {
        Some(x) => x.clone(),
        None => {
            return Err(
                HeifError::invalid(about_item("item ", item_id, " is referenced but not in iinf")),
            );
        },
    };
    if !item.is_image() {
        let t: String = fourcc_str(&item.item_type);
        let a: String = about_item("item ", item_id, " type '");
        return Err(
            HeifError::unsupported(concat(&[a.as_str(), t.as_str(), "' is not an image item"])),
        );
    }
    let properties: ItemProperties = ItemProperties::resolve(meta, item_id)?;
    let input_ids: Vec<u32> = meta.derivation_inputs(item_id);
    if input_ids.len() > MAX_DERIVATION_INPUTS {
        let n: String = decimal(input_ids.len() as u64);
        let m: String = decimal(MAX_DERIVATION_INPUTS as u64);
        let a: String = about_item("item ", item_id, ": ");
        return Err(
            HeifError::exhausted(concat(&[a.as_str(), n.as_str(), " inputs exceeds ", m.as_str()])),
        );
    }
    let kind: ImageKind = read_kind(file, item_id, item.item_type, input_ids.len())?;
    let ghost before = stack@;
    stack.push(item_id);
    let inputs: Vec<ImageNode> = build_list(file, meta, &input_ids, depth, stack, budget)?;
    // Auxiliaries, thumbnails and metadata hang off the item; they do
    // not extend the derivation chain but share the budget / cycle set.
    let aux_ids: Vec<u32> = meta.auxiliaries_of(item_id);
    let aux: Auxiliaries = build_auxiliaries(file, meta, item_id, &aux_ids, depth, stack, budget)?;
    let thumb_ids: Vec<u32> = meta.thumbnails_of(item_id);
    let thumbnails: Vec<ImageNode> = build_list(file, meta, &thumb_ids, depth, stack, budget)?;
    let metadata_ids: Vec<u32> = meta.metadata_of(item_id);
    let metadata: Vec<ItemInfo> = existing_items(meta, &metadata_ids);
    stack.pop();
    proof {
        assert(stack@ =~= before);
    }
    Ok(
        ImageNode {
            item,
            kind,
            properties,
            inputs,
            alpha: aux.alpha,
            depth: aux.depth,
            other_auxiliaries: aux.other,
            premultiplied_alpha: aux.premultiplied,
            thumbnails,
            metadata,
            depth_in_chain: depth,
        },
    )
}

fn read_kind(file: &HeifFile, item_id: u32, t: FourCc, inputs: usize) -> (r: Result<ImageKind>)
    ensures
        outcome(r) == kind_of_item(file@, item_id, t, inputs as nat),
{
    let n: String = decimal(inputs as u64);
    if fourcc_eq(&t, &ITEM_TYPE_GRID) {
        let body: Cow<'_> = file.item_data(item_id)?;
        let g: GridDescriptor = GridDescriptor::parse(body.as_ref())?;
        if g.tile_count() != inputs {
            let rows: String = decimal(g.rows as u64);
            let columns: String = decimal(g.columns as u64);
            let a: String = about_item("grid item ", item_id, ": ");
            return Err(
                HeifError::invalid(
                    concat(
                        &[
                            a.as_str(),
                            rows.as_str(),
                            "x",
                            columns.as_str(),
                            " tiles declared but ",
                            n.as_str(),
                            " dimg inputs",
                        ],
                    ),
                ),
            );
        }
        Ok(ImageKind::Grid(g))
    } else if fourcc_eq(&t, &ITEM_TYPE_IOVL) {
        let body: Cow<'_> = file.item_data(item_id)?;
        let o: OverlayDescriptor = OverlayDescriptor::parse(body.as_ref(), inputs)?;
        Ok(ImageKind::Overlay(o))
    } else if fourcc_eq(&t, &ITEM_TYPE_IDEN) {
        if inputs != 1 {
            let a: String = about_item("iden item ", item_id, ": reference_count ");
            return Err(HeifError::invalid(concat(&[a.as_str(), n.as_str(), " (shall be 1)"])));
        }
        Ok(ImageKind::Identity)
    } else if fourcc_eq(&t, &ITEM_TYPE_TMAP) {
        // HEIF Amd 1 §6.6.2.4.1: reference_count shall be 2 — the
        // base input image, then the gain map input image.
        if inputs != 2 {
            let a: String = about_item("tmap item ", item_id, ": reference_count ");
            return Err(
                HeifError::invalid(
                    concat(&[a.as_str(), n.as_str(), " (shall be 2: base, gain map)"]),
                ),
            );
        }
        let body: Cow<'_> = file.item_data(item_id)?;
        Ok(ImageKind::ToneMap(body.into_owned()))
    } else {
        if inputs != 0 {
            let c: String = fourcc_str(&t);
            let a: String = about_item("coded item ", item_id, " ('");
            return Err(
                HeifError::invalid(concat(&[a.as_str(), c.as_str(), "') carries dimg references"])),
            );
        }
        Ok(ImageKind::Coded(t))
    }
}

fn build_list(
    file: &HeifFile,
    meta: &Meta,
    ids: &Vec<u32>,
    depth: usize,
    stack: &mut Vec<u32>,
    budget: &mut usize,
) -> (r: Result<Vec<ImageNode>>)
    requires
        depth <= MAX_DERIVATION_DEPTH,
    ensures
        match r {
            Ok(v) => final(stack)@ == old(stack)@ && nodes_from(
                file@,
                meta@,
                ids@,
                0,
                depth as int,
                old(stack)@,
                *old(budget) as int,
                Seq::empty(),
            ) == Ok::<(Seq<NodeModel>, int), ErrorKind>(
                (node_models(v@), *final(budget) as int),
            ),
            Err(e) => nodes_from(
                file@,
                meta@,
                ids@,
                0,
                depth as int,
                old(stack)@,
                *old(budget) as int,
                Seq::empty(),
            ) == Err::<(Seq<NodeModel>, int), ErrorKind>(e.kind()),
        },
    decreases MAX_DERIVATION_DEPTH + 1 - depth, 0int,
{
    let ghost st = stack@;
    let ghost goal = nodes_from(
        file@,
        meta@,
        ids@,
        0,
        depth as int,
        st,
        *budget as int,
        Seq::empty(),
    );
    let mut out: Vec<ImageNode> = Vec::new();
    proof {
        assert(node_models(out@) =~= Seq::empty());
    }
    for i in 0..ids.len()
        invariant
            depth <= MAX_DERIVATION_DEPTH,
            st == old(stack)@,
            stack@ == st,
            goal == nodes_from(
                file@,
                meta@,
                ids@,
                0,
                depth as int,
                st,
                *old(budget) as int,
                Seq::empty(),
            ),
            goal == nodes_from(
                file@,
                meta@,
                ids@,
                i as int,
                depth as int,
                st,
                *budget as int,
                node_models(out@),
            ),
        decreases ids.len() - i,
    {
        let n: ImageNode = build_node(file, meta, ids[i], depth + 1, stack, budget)?;
        let ghost before = node_models(out@);
        out.push(n);
        proof {
            assert(node_models(out@) =~= before.push(n@));
        }
    }
    Ok(out)
}

/// The auxiliaries of a node while it is built.
struct Auxiliaries {
    alpha: Option<Box<ImageNode>>,
    depth: Option<Box<ImageNode>>,
    other: Vec<ImageNode>,
    premultiplied: bool,
}

impl Auxiliaries {
    spec fn model(self) -> AuxModel {
        AuxModel {
            alpha: option_model(self.alpha),
            depth: option_model(self.depth),
            other: node_models(self.other@),
            premultiplied: self.premultiplied,
        }
    }
}

fn build_auxiliaries(
    file: &HeifFile,
    meta: &Meta,
    master: u32,
    ids: &Vec<u32>,
    depth: usize,
    stack: &mut Vec<u32>,
    budget: &mut usize,
) -> (r: Result<Auxiliaries>)
    requires
        depth <= MAX_DERIVATION_DEPTH,
    ensures
        match r {
            Ok(v) => final(stack)@ == old(stack)@ && aux_from(
                file@,
                meta@,
                master,
                ids@,
                0,
                depth as int,
                old(stack)@,
                *old(budget) as int,
                AuxModel::none(),
            ) == Ok::<(AuxModel, int), ErrorKind>((v.model(), *final(budget) as int)),
            Err(e) => aux_from(
                file@,
                meta@,
                master,
                ids@,
                0,
                depth as int,
                old(stack)@,
                *old(budget) as int,
                AuxModel::none(),
            ) == Err::<(AuxModel, int), ErrorKind>(e.kind()),
        },
    decreases MAX_DERIVATION_DEPTH + 1 - depth, 0int,
{
    let ghost st = stack@;
    let ghost goal = aux_from(
        file@,
        meta@,
        master,
        ids@,
        0,
        depth as int,
        st,
        *budget as int,
        AuxModel::none(),
    );
    let mut out: Auxiliaries = Auxiliaries {
        alpha: None,
        depth: None,
        other: Vec::new(),
        premultiplied: false,
    };
    proof {
        assert(out.model() =~= AuxModel::none());
    }
    for i in 0..ids.len()
        invariant
            depth <= MAX_DERIVATION_DEPTH,
            st == old(stack)@,
            stack@ == st,
            goal == aux_from(
                file@,
                meta@,
                master,
                ids@,
                0,
                depth as int,
                st,
                *old(budget) as int,
                AuxModel::none(),
            ),
            goal == aux_from(
                file@,
                meta@,
                master,
                ids@,
                i as int,
                depth as int,
                st,
                *budget as int,
                out.model(),
            ),
        decreases ids.len() - i,
    {
        let aux_id: u32 = ids[i];
        let node: ImageNode = build_node(file, meta, aux_id, depth + 1, stack, budget)?;
        let ghost n = node@;
        let ghost before = out.model();
        let kind: Option<AuxKind> = match node.properties.auxc() {
            Some(a) => Some(a.kind()),
            None => None,
        };
        let is_alpha: bool = matches!(kind, Some(AuxKind::Alpha));
        let is_depth: bool = matches!(kind, Some(AuxKind::Depth));
        if is_alpha && out.alpha.is_none() {
            out.premultiplied = meta.is_premultiplied(master, aux_id);
            out.alpha = Some(Box::new(node));
        } else if is_depth && out.depth.is_none() {
            out.depth = Some(Box::new(node));
        } else {
            out.other.push(node);
        }
        proof {
            assert(kind == aux_kind(n.properties));
            assert(out.model() =~= before.with(meta@, master, aux_id, n)) by {
                if !(is_alpha && before.alpha is None) && !(is_depth && before.depth is None) {
                    assert(out.model().other =~= before.other.push(n));
                }
            }
        }
    }
    Ok(out)
}

fn existing_items(meta: &Meta, ids: &Vec<u32>) -> (r: Vec<ItemInfo>)
    ensures
        r.deep_view() == known_items(meta@, ids@),
{
    let ghost all = ids@;
    let mut out: Vec<ItemInfo> = Vec::new();
    proof {
        assert(all.take(0) =~= Seq::empty());
        assert(out.deep_view() =~= Seq::empty());
    }
    for i in 0..ids.len()
        invariant
            all == ids@,
            out.deep_view() == known_items(meta@, all.take(i as int)),
    {
        proof {
            assert(all.take(i + 1).drop_last() =~= all.take(i as int));
        }
        if let Some(x) = meta.item(ids[i]) {
            let ghost before = out.deep_view();
            let y: ItemInfo = x.clone();
            out.push(y);
            proof {
                assert(out.deep_view() =~= before.push(y@));
            }
        }
    }
    proof {
        assert(all.take(all.len() as int) =~= all);
    }
    out
}

/// `true` for the derived item types this crate composes.
pub fn is_derived_type(t: &FourCc) -> (r: bool)
    ensures
        r == crate::meta::is_derived_type(*t),
{
    fourcc_eq(t, &ITEM_TYPE_GRID) || fourcc_eq(t, &ITEM_TYPE_IOVL) || fourcc_eq(t, &ITEM_TYPE_IDEN)
        || fourcc_eq(t, &ITEM_TYPE_TMAP)
}

/// Alias kept for readers of the item-reference vocabulary.
pub const DIMG: FourCc = reference::DIMG;

/// Whether no item reaches itself below `n`, and no chain is longer than the
/// limit: `stack` holds the items on the way to `n`.
pub open spec fn acyclic(n: NodeModel, stack: Seq<u32>, depth: int) -> bool
    decreases n, 1int,
{
    &&& depth <= MAX_DERIVATION_DEPTH
    &&& n.depth_in_chain == depth
    &&& !stack.contains(n.item.id)
    &&& all_acyclic(n.inputs, stack.push(n.item.id), depth + 1)
    &&& all_acyclic(n.other_auxiliaries, stack.push(n.item.id), depth + 1)
    &&& all_acyclic(n.thumbnails, stack.push(n.item.id), depth + 1)
    &&& n.alpha matches Some(x) ==> acyclic(*x, stack.push(n.item.id), depth + 1)
    &&& n.depth matches Some(x) ==> acyclic(*x, stack.push(n.item.id), depth + 1)
}

/// [`acyclic`] of every node of a list.
pub open spec fn all_acyclic(v: Seq<NodeModel>, stack: Seq<u32>, depth: int) -> bool
    decreases v, 0int,
{
    forall|i: int| 0 <= i < v.len() ==> acyclic(#[trigger] v[i], stack, depth)
}

/// The number of nodes of a graph.
pub open spec fn node_count(n: NodeModel) -> nat
    decreases n, 1int, 0int,
{
    1 + count_from(n.inputs, 0) + count_from(n.other_auxiliaries, 0) + count_from(n.thumbnails, 0)
        + (match n.alpha {
        Some(x) => node_count(*x),
        None => 0,
    }) + (match n.depth {
        Some(x) => node_count(*x),
        None => 0,
    })
}

/// The number of nodes of a list from `i` on.
pub open spec fn count_from(v: Seq<NodeModel>, i: int) -> nat
    decreases v, 0int, v.len() - i,
{
    if 0 <= i < v.len() {
        node_count(v[i]) + count_from(v, i + 1)
    } else {
        0
    }
}

proof fn lemma_item_id(items: Seq<ItemInfoModel>, id: u32)
    ensures
        crate::meta::first_item(items, id) matches Some(x) ==> x.id == id,
    decreases items.len(),
{
    if items.len() > 0 && items[0].id != id {
        lemma_item_id(items.drop_first(), id);
    }
}

proof fn lemma_count_push(v: Seq<NodeModel>, n: NodeModel, i: int)
    requires
        0 <= i <= v.len(),
    ensures
        count_from(v.push(n), i) == count_from(v, i) + node_count(n),
    decreases v.len() - i,
{
    let w = v.push(n);
    if i < v.len() {
        lemma_count_push(v, n, i + 1);
        assert(w[i] == v[i]);
    } else {
        assert(w[i] == n);
        assert(count_from(w, i + 1) == 0);
    }
}

/// The nodes of the auxiliaries.
spec fn aux_count(a: AuxModel) -> nat {
    count_from(a.other, 0) + (match a.alpha {
        Some(x) => node_count(*x),
        None => 0,
    }) + (match a.depth {
        Some(x) => node_count(*x),
        None => 0,
    })
}

spec fn aux_acyclic(a: AuxModel, stack: Seq<u32>, depth: int) -> bool {
    &&& all_acyclic(a.other, stack, depth)
    &&& a.alpha matches Some(x) ==> acyclic(*x, stack, depth)
    &&& a.depth matches Some(x) ==> acyclic(*x, stack, depth)
}

proof fn lemma_node(
    f: FileModel,
    meta: MetaModel,
    id: u32,
    depth: int,
    stack: Seq<u32>,
    budget: int,
)
    requires
        0 <= depth,
    ensures
        node_at(f, meta, id, depth, stack, budget) matches Ok((n, left)) ==> {
            &&& n.item.id == id
            &&& acyclic(n, stack, depth)
            &&& 0 <= left
            &&& node_count(n) == budget - left
        },
    decreases MAX_DERIVATION_DEPTH + 1 - depth, 1int, 0int,
{
    if let Ok((n, left)) = node_at(f, meta, id, depth, stack, budget) {
        lemma_item_id(meta.items, id);
        let st = stack.push(id);
        let ids = meta.references_from(id, reference::DIMG);
        let aux_ids = meta.references_to(id, reference::AUXL);
        let thumb_ids = meta.references_to(id, reference::THMB);
        lemma_nodes(f, meta, ids, 0, depth, st, budget - 1, Seq::empty());
        let b1 = nodes_from(f, meta, ids, 0, depth, st, budget - 1, Seq::empty())->Ok_0.1;
        lemma_auxiliaries(f, meta, id, aux_ids, 0, depth, st, b1, AuxModel::none());
        let b2 = aux_from(f, meta, id, aux_ids, 0, depth, st, b1, AuxModel::none())->Ok_0.1;
        lemma_nodes(f, meta, thumb_ids, 0, depth, st, b2, Seq::empty());
    }
}

proof fn lemma_nodes(
    f: FileModel,
    meta: MetaModel,
    ids: Seq<u32>,
    i: int,
    depth: int,
    stack: Seq<u32>,
    budget: int,
    acc: Seq<NodeModel>,
)
    requires
        0 <= depth,
        0 <= i,
        0 <= budget,
        all_acyclic(acc, stack, depth + 1),
    ensures
        nodes_from(f, meta, ids, i, depth, stack, budget, acc) matches Ok((v, left)) ==> {
            &&& all_acyclic(v, stack, depth + 1)
            &&& 0 <= left
            &&& count_from(v, 0) - count_from(acc, 0) == budget - left
        },
    decreases MAX_DERIVATION_DEPTH + 1 - depth, 0int, ids.len() - i,
{
    if i < ids.len() && depth <= MAX_DERIVATION_DEPTH {
        lemma_node(f, meta, ids[i], depth + 1, stack, budget);
        if let Ok((n, left)) = node_at(f, meta, ids[i], depth + 1, stack, budget) {
            lemma_count_push(acc, n, 0);
            lemma_nodes(f, meta, ids, i + 1, depth, stack, left, acc.push(n));
        }
    }
}

proof fn lemma_auxiliaries(
    f: FileModel,
    meta: MetaModel,
    master: u32,
    ids: Seq<u32>,
    i: int,
    depth: int,
    stack: Seq<u32>,
    budget: int,
    acc: AuxModel,
)
    requires
        0 <= depth,
        0 <= i,
        0 <= budget,
        aux_acyclic(acc, stack, depth + 1),
    ensures
        aux_from(f, meta, master, ids, i, depth, stack, budget, acc) matches Ok((a, left)) ==> {
            &&& aux_acyclic(a, stack, depth + 1)
            &&& 0 <= left
            &&& aux_count(a) - aux_count(acc) == budget - left
        },
    decreases MAX_DERIVATION_DEPTH + 1 - depth, 0int, ids.len() - i,
{
    if i < ids.len() && depth <= MAX_DERIVATION_DEPTH {
        lemma_node(f, meta, ids[i], depth + 1, stack, budget);
        if let Ok((n, left)) = node_at(f, meta, ids[i], depth + 1, stack, budget) {
            lemma_count_push(acc.other, n, 0);
            lemma_auxiliaries(
                f,
                meta,
                master,
                ids,
                i + 1,
                depth,
                stack,
                left,
                acc.with(meta, master, ids[i], n),
            );
        }
    }
}

/// In a derivation graph no item reaches itself, no chain is longer than
/// [`MAX_DERIVATION_DEPTH`], and there are at most [`MAX_GRAPH_ITEMS`] nodes.
#[verifier::rlimit(50)]
pub proof fn law_graph_bounds(f: FileModel, id: u32)
    ensures
        graph_of(f, id) matches Ok(n) ==> {
            &&& n.item.id == id
            &&& acyclic(n, Seq::empty(), 0)
            &&& node_count(n) <= MAX_GRAPH_ITEMS
        },
{
    if let Some(meta) = f.meta {
        lemma_node(f, meta, id, 0, Seq::empty(), MAX_GRAPH_ITEMS as int);
    }
}

} // verus!
