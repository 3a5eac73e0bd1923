//! MIAF constraints on derivation chains (§7.3.11).

use crate::boxes::{fourcc_eq, fourcc_str, fourcc_text, FourCc};
use crate::bytes::same;
use crate::derived::{chain_of, declared_size, node_models, size_after, GridDescriptor, ImageKind, ImageNode, KindModel, NodeModel};
use crate::error::{ErrorKind, Outcome};
use crate::meta::{ITEM_TYPE_GRID, ITEM_TYPE_IDEN, ITEM_TYPE_IOVL};
use crate::miaf::{
    found, lemma_within_both, lemma_within_none, lemma_within_same, within, Finding, MiafProfile,
    MiafReport, GRID_LIMIT_PIXELS, MIN_TILE_EDGE,
};
use crate::props::{
    entry_views, first_nclx, Colr, ColrModel, ItemProperties, ItemPropertiesModel, Property, PropertyEntry,
    PropertyEntryModel, PropertyKind, PropertyModel,
};
use crate::text::{decimal, decimal_chars, text1, text3, text6, text7};
use vstd::prelude::*;

verus! {

/// The names of the first `n` types of a chain, joined by arrows.
pub open spec fn chain_text(chain: Seq<FourCc>, n: int) -> Seq<char>
    decreases n,
{
    if n <= 0 {
        Seq::empty()
    } else if n == 1 {
        fourcc_text(chain[0])
    } else {
        chain_text(chain, n - 1) + " → "@ + fourcc_text(chain[n - 1])
    }
}

/// What is said of an identity of an identity in a chain.
pub open spec fn twice_identical() -> Seq<char> {
    "identity derivation derived from an identity derivation"@
}

/// What is said of a chain in another order.
pub open spec fn out_of_order(chain: Seq<FourCc>) -> Seq<char> {
    "derivation chain "@ + chain_text(chain, chain.len() as int)
        + " is not in the permitted order"@
}

/// What a chain of item types violates from the `i`-th on: from the top, an
/// overlay comes before a grid, each at most once (§7.3.11.1), and an identity
/// is not derived from an identity (§7.3.11.2). `stage` is 1 below an overlay
/// and 2 below a grid.
pub open spec fn order_findings(
    chain: Seq<FourCc>,
    i: int,
    stage: int,
    after_identity: bool,
    id: u32,
) -> Seq<Finding>
    decreases chain.len() - i,
{
    if i >= chain.len() {
        Seq::empty()
    } else {
        let t = chain[i];
        let identity = t == ITEM_TYPE_IDEN;
        let allowed = if t == ITEM_TYPE_IOVL {
            stage == 0
        } else if t == ITEM_TYPE_GRID {
            stage <= 1
        } else {
            true
        };
        let next = if t == ITEM_TYPE_IOVL {
            1
        } else if t == ITEM_TYPE_GRID {
            2
        } else {
            stage
        };
        found(identity && after_identity, "7.3.11.2", Some(id), twice_identical()) + (if !allowed {
            found(true, "7.3.11.1", Some(id), out_of_order(chain))
        } else {
            order_findings(chain, i + 1, next, identity, id)
        })
    }
}

fn joined(chain: &Vec<FourCc>) -> (r: String)
    ensures
        r@ == chain_text(chain@, chain@.len() as int),
{
    let mut s: String = String::new();
    let mut i: usize = 0;
    assert(s@ =~= chain_text(chain@, 0));
    while i < chain.len()
        invariant
            i <= chain@.len(),
            s@ == chain_text(chain@, i as int),
        decreases chain@.len() - i,
    {
        let name: String = fourcc_str(&chain[i]);
        if i == 0 {
            s = name;
        } else {
            s = text3(s.as_str(), " → ", name.as_str());
        }
        i = i + 1;
    }
    s
}

fn check_order(rep: &mut MiafReport, root: &ImageNode)
    ensures
        final(rep)@ == old(rep)@ + order_findings(
            chain_of(root@),
            0,
            0,
            false,
            root@.item.id,
        ),
{
    let ghost start = rep@;
    let id: u32 = root.item.id;
    let chain: Vec<FourCc> = root.chain_types();
    let ghost goal = order_findings(chain@, 0, 0, false, id);
    let mut stage: u8 = 0;
    let mut after_identity: bool = false;
    let mut i: usize = 0;
    assert(start + goal =~= rep@ + order_findings(chain@, 0, 0, false, id));
    while i < chain.len()
        invariant
            i <= chain@.len(),
            chain@ == chain_of(root@),
            id == root@.item.id,
            start == old(rep)@,
            goal == order_findings(chain@, 0, 0, false, id),
            start + goal == rep@ + order_findings(
                chain@,
                i as int,
                stage as int,
                after_identity,
                id,
            ),
        decreases chain@.len() - i,
    {
        let t: FourCc = chain[i];
        let ghost before = rep@;
        proof {
            assert(ITEM_TYPE_IDEN[1] != ITEM_TYPE_IOVL[1] && ITEM_TYPE_IDEN[0] != ITEM_TYPE_GRID[0]
                && ITEM_TYPE_IOVL[0] != ITEM_TYPE_GRID[0]);
        }
        let identity: bool = fourcc_eq(&t, &ITEM_TYPE_IDEN);
        let overlay: bool = fourcc_eq(&t, &ITEM_TYPE_IOVL);
        let grid: bool = fourcc_eq(&t, &ITEM_TYPE_GRID);
        if identity && after_identity {
            rep.push(
                "7.3.11.2",
                Some(id),
                text1("identity derivation derived from an identity derivation"),
            );
        }
        let ghost mid = rep@;
        let ghost a = found(
            identity && after_identity,
            "7.3.11.2",
            Some(id),
            twice_identical(),
        );
        assert(mid =~= before + a);
        let allowed: bool = (!overlay || stage == 0) && (!grid || stage <= 1);
        if !allowed {
            let names: String = joined(&chain);
            rep.push(
                "7.3.11.1",
                Some(id),
                text3("derivation chain ", names.as_str(), " is not in the permitted order"),
            );
            proof {
                let b = found(true, "7.3.11.1", Some(id), out_of_order(chain@));
                assert(rep@ =~= mid + b);
                assert(before + (a + b) =~= mid + b);
            }
            return;
        }
        if overlay {
            stage = 1;
        } else if grid {
            stage = 2;
        }
        proof {
            let rest = order_findings(chain@, i + 1, stage as int, identity, id);
            assert(before + (a + rest) =~= mid + rest);
        }
        after_identity = identity;
        i = i + 1;
    }
    assert(rep@ =~= start + goal);
}

/// The coding of an item: its type, its decoder configuration record and its
/// chroma format.
pub struct Coding {
    /// The item type.
    pub item_type: FourCc,
    /// The record.
    pub raw: Seq<u8>,
    /// `chroma_format_idc`.
    pub chroma: u8,
}

/// The record and chroma format of the first HEVC or AV1 configuration among
/// the properties from the `i`-th on.
pub open spec fn config_from(es: Seq<PropertyEntryModel>, i: int) -> Option<(Seq<u8>, u8)>
    decreases es.len() - i,
{
    if i >= es.len() {
        None
    } else {
        match es[i].property {
            PropertyModel::HvcC(h) => Some((h.raw, h.chroma_format_idc)),
            PropertyModel::Av1C(a) => Some((a.raw, a.chroma_idc())),
            _ => config_from(es, i + 1),
        }
    }
}

/// The coding of an item, when it has an HEVC or AV1 configuration.
pub open spec fn coding_of(n: NodeModel) -> Option<Coding> {
    match config_from(n.properties.entries, 0) {
        Some((raw, chroma)) => Some(Coding { item_type: n.item.item_type, raw, chroma }),
        None => None,
    }
}

/// A coding in use.
struct UsedCoding<'a> {
    item_type: FourCc,
    raw: &'a [u8],
    chroma: u8,
}

spec fn used(c: Option<UsedCoding>) -> Option<Coding> {
    match c {
        Some(u) => Some(Coding { item_type: u.item_type, raw: u.raw@, chroma: u.chroma }),
        None => None,
    }
}

fn coding<'a>(n: &'a ImageNode) -> (r: Option<UsedCoding<'a>>)
    ensures
        used(r) == coding_of(n@),
{
    let ghost es = n@.properties.entries;
    let list: Vec<&'a PropertyEntry> = n.properties.iter();
    for i in 0..list.len()
        invariant
            entry_views(list@) == es,
            es == n@.properties.entries,
            config_from(es, 0) == config_from(es, i as int),
    {
        let e: &'a PropertyEntry = list[i];
        assert(es[i as int] == e@);
        match &e.property {
            Property::HvcC(h) => {
                return Some(
                    UsedCoding {
                        item_type: n.item.item_type,
                        raw: h.raw.as_slice(),
                        chroma: h.chroma_format_idc,
                    },
                );
            },
            Property::Av1C(a) => {
                return Some(
                    UsedCoding {
                        item_type: n.item.item_type,
                        raw: a.raw.as_slice(),
                        chroma: a.chroma_format_idc(),
                    },
                );
            },
            _ => {},
        }
    }
    None
}

/// The coding of the first `n` tiles that have one.
pub open spec fn first_coding(tiles: Seq<NodeModel>, n: int) -> Option<Coding>
    decreases n,
{
    if n <= 0 {
        None
    } else {
        match first_coding(tiles, n - 1) {
            Some(c) => Some(c),
            None => coding_of(tiles[n - 1]),
        }
    }
}

/// Whether a tile is coded otherwise than the tiles before it.
pub open spec fn differs(first: Option<Coding>, tile: Option<Coding>) -> bool {
    match (first, tile) {
        (Some(f), Some(c)) => f.item_type != c.item_type || f.raw != c.raw,
        _ => false,
    }
}

/// What is said of a tile that is coded otherwise.
pub open spec fn other_coding(tile: u32) -> Seq<char> {
    "grid tile "@ + decimal_chars(tile as nat)
        + " differs in coding format / decoder configuration"@
}

/// What the coding of the first `n` tiles violates (§7.3.11.4.1): all are coded
/// alike.
pub open spec fn coding_findings(tiles: Seq<NodeModel>, n: int, id: u32) -> Seq<Finding>
    decreases n,
{
    if n <= 0 {
        Seq::empty()
    } else {
        coding_findings(tiles, n - 1, id) + found(
            differs(first_coding(tiles, n - 1), coding_of(tiles[n - 1])),
            "7.3.11.4.1",
            Some(id),
            other_coding(tiles[n - 1].item.id),
        )
    }
}

/// The pixels the first `n` inputs declare, held to the largest count.
pub open spec fn pixel_sum(v: Seq<NodeModel>, n: int) -> int
    decreases n,
{
    if n <= 0 {
        0
    } else {
        let sum = pixel_sum(v, n - 1) + (match declared_size(v[n - 1].properties) {
            Some(s) => s.0 * s.1,
            None => 0,
        });
        if sum > u64::MAX {
            u64::MAX as int
        } else {
            sum
        }
    }
}

fn add_pixels(sum: u64, n: &ImageNode) -> (r: u64)
    ensures
        r == ({
            let t = sum + (match declared_size(n@.properties) {
                Some(s) => s.0 * s.1,
                None => 0,
            });
            if t > u64::MAX {
                u64::MAX as int
            } else {
                t
            }
        }),
{
    match n.ispe() {
        None => sum,
        Some((w, h)) => {
            proof {
                assert(0 <= w * h <= 0xffff_ffff * 0xffff_ffff) by (nonlinear_arith)
                    requires
                        0 <= w <= 0xffff_ffff,
                        0 <= h <= 0xffff_ffff,
                ;
            }
            sum.saturating_add(w as u64 * h as u64)
        },
    }
}

/// What the tile size of a grid violates (§7.3.11.4.2, HEIF §6.6.2.3.1): 64
/// pixels at least, even where chroma is subsampled, and enough to cover the
/// canvas.
pub open spec fn tile_size_findings(
    g: GridDescriptor,
    tile: Outcome<(u32, u32)>,
    chroma: u8,
    id: u32,
) -> Seq<Finding> {
    match tile {
        Err(_) => Seq::empty(),
        Ok((w, h)) => {
            let odd_w = w % 2 == 1 || g.output_width % 2 == 1;
            let odd_h = h % 2 == 1 || g.output_height % 2 == 1;
            found(
                w < MIN_TILE_EDGE || h < MIN_TILE_EDGE,
                "7.3.11.4.2",
                Some(id),
                "tile "@ + decimal_chars(w as nat) + "x"@ + decimal_chars(h as nat)
                    + " smaller than "@ + decimal_chars(MIN_TILE_EDGE as nat) + " pixels"@,
            ) + found(
                ((chroma == 1 || chroma == 2) && odd_w) || (chroma == 1 && odd_h),
                "7.3.11.4.2",
                Some(id),
                "tile or output size is odd for the chroma sampling format"@,
            ) + found(
                w * g.columns < g.output_width || h * g.rows < g.output_height,
                "HEIF 6.6.2.3.1",
                Some(id),
                "tiles do not cover the declared output canvas"@,
            )
        },
    }
}

fn check_tile_size(rep: &mut MiafReport, g: &GridDescriptor, tile: Option<(u32, u32)>, chroma: u8, id: u32)
    ensures
        tile matches Some(s) ==> final(rep)@ == old(rep)@ + tile_size_findings(
            *g,
            Ok(s),
            chroma,
            id,
        ),
        tile is None ==> final(rep)@ == old(rep)@,
{
    let ghost start = rep@;
    if let Some((w, h)) = tile {
        if w < MIN_TILE_EDGE || h < MIN_TILE_EDGE {
            let a: String = decimal(w as u64);
            let b: String = decimal(h as u64);
            let m: String = decimal(MIN_TILE_EDGE as u64);
            rep.push(
                "7.3.11.4.2",
                Some(id),
                text7("tile ", a.as_str(), "x", b.as_str(), " smaller than ", m.as_str(), " pixels"),
            );
        }
        let need_even_w: bool = chroma == 1 || chroma == 2;
        let need_even_h: bool = chroma == 1;
        if (need_even_w && (w % 2 == 1 || g.output_width % 2 == 1)) || (need_even_h && (h % 2 == 1
            || g.output_height % 2 == 1)) {
            rep.push(
                "7.3.11.4.2",
                Some(id),
                text1("tile or output size is odd for the chroma sampling format"),
            );
        }
        proof {
            assert(0 <= w * g.columns <= 0xffff_ffff * 0xffff && 0 <= h * g.rows <= 0xffff_ffff
                * 0xffff) by (nonlinear_arith)
                requires
                    0 <= w <= 0xffff_ffff,
                    0 <= h <= 0xffff_ffff,
                    0 <= g.columns <= 0xffff,
                    0 <= g.rows <= 0xffff,
            ;
        }
        if (w as u64) * (g.columns as u64) < g.output_width as u64 || (h as u64) * (g.rows as u64)
            < g.output_height as u64 {
            rep.push(
                "HEIF 6.6.2.3.1",
                Some(id),
                text1("tiles do not cover the declared output canvas"),
            );
        }
        assert(rep@ =~= start + tile_size_findings(*g, Ok((w, h)), chroma, id));
    }
}

/// An outcome without the class of the error.
pub open spec fn success(r: Outcome<(u32, u32)>) -> Option<(u32, u32)> {
    match r {
        Ok(s) => Some(s),
        Err(_) => None,
    }
}

/// Whether an identity tile refers to a coded image.
pub open spec fn plain_identity(n: NodeModel) -> bool {
    n.item.item_type == ITEM_TYPE_IDEN ==> n.inputs.len() > 0 && n.inputs[0].kind is Coded
}

/// What is said of a tile of another size than the first.
pub open spec fn other_size(tile: u32) -> Seq<char> {
    "tile "@ + decimal_chars(tile as nat) + " size differs from the first tile"@
}

/// What is said of an identity tile that refers to no coded image.
pub open spec fn not_direct() -> Seq<char> {
    "grid of iden items whose iden does not refer directly to a coded image"@
}

/// What the first `n` tiles violate: all have the size of the first, and an
/// identity refers to a coded image.
pub open spec fn tile_findings(tiles: Seq<NodeModel>, n: int, id: u32) -> Seq<Finding>
    decreases n,
{
    if n <= 0 {
        Seq::empty()
    } else {
        tile_findings(tiles, n - 1, id) + found(
            success(size_after(tiles[n - 1])) != success(size_after(tiles[0])),
            "HEIF 6.6.2.3.1",
            Some(id),
            other_size(tiles[n - 1].item.id),
        ) + found(!plain_identity(tiles[n - 1]), "7.3.11.4.1", Some(id), not_direct())
    }
}

fn size_option(n: &ImageNode) -> (r: Option<(u32, u32)>)
    ensures
        r == success(size_after(n@)),
        r matches Some(s) ==> size_after(n@) == Ok::<(u32, u32), ErrorKind>(s),
{
    match n.output_size() {
        Ok(s) => Some(s),
        Err(_) => None,
    }
}

fn same_size(a: Option<(u32, u32)>, b: Option<(u32, u32)>) -> (r: bool)
    ensures
        r == (a == b),
{
    match (a, b) {
        (Some(x), Some(y)) => x.0 == y.0 && x.1 == y.1,
        (None, None) => true,
        _ => false,
    }
}

/// What is said of inputs with too many pixels.
pub open spec fn limit_message(what: Seq<char>, total: int) -> Seq<char> {
    what + " inputs total "@ + decimal_chars(total as nat) + " pixels, over the "@ + decimal_chars(
        GRID_LIMIT_PIXELS as nat,
    ) + " grid-limit"@
}

/// What a grid violates.
pub open spec fn grid_findings(g: GridDescriptor, tiles: Seq<NodeModel>, shared: bool, id: u32) -> Seq<
    Finding,
> {
    let n = tiles.len() as int;
    let chroma = match first_coding(tiles, n) {
        Some(c) => c.chroma,
        None => 1,
    };
    coding_findings(tiles, n, id) + (if n > 0 {
        tile_size_findings(g, size_after(tiles[0]), chroma, id) + tile_findings(tiles, n, id)
    } else {
        Seq::empty()
    }) + found(
        shared && pixel_sum(tiles, n) > GRID_LIMIT_PIXELS,
        "8.4",
        Some(id),
        limit_message("grid"@, pixel_sum(tiles, n)),
    )
}

fn over_limit(what: &str, total: u64) -> (r: String)
    ensures
        r@ == limit_message(what@, total as int),
{
    let n: String = decimal(total);
    let m: String = decimal(GRID_LIMIT_PIXELS);
    text6(what, " inputs total ", n.as_str(), " pixels, over the ", m.as_str(), " grid-limit")
}

#[verifier::rlimit(60)]
#[verifier::spinoff_prover]
fn check_grid(rep: &mut MiafReport, g: &GridDescriptor, tiles: &Vec<ImageNode>, profile: MiafProfile, id: u32)
    ensures
        final(rep)@ == old(rep)@ + grid_findings(*g, node_models(tiles@), profile.shared(), id),
{
    let ghost start = rep@;
    let ghost ts = node_models(tiles@);
    let mut first: Option<UsedCoding> = None;
    let mut total: u64 = 0;
    assert(rep@ =~= start + coding_findings(ts, 0, id));
    for i in 0..tiles.len()
        invariant
            ts == node_models(tiles@),
            used(first) == first_coding(ts, i as int),
            total == pixel_sum(ts, i as int),
            rep@ == start + coding_findings(ts, i as int, id),
    {
        let tile: &ImageNode = &tiles[i];
        assert(ts[i as int] == tile@);
        let ghost before = rep@;
        let own: Option<UsedCoding> = coding(tile);
        let other: bool = match (&first, &own) {
            (Some(f), Some(c)) => !fourcc_eq(&f.item_type, &c.item_type) || !same(f.raw, c.raw),
            _ => false,
        };
        if other {
            let n: String = decimal(tile.item.id as u64);
            rep.push(
                "7.3.11.4.1",
                Some(id),
                text3("grid tile ", n.as_str(), " differs in coding format / decoder configuration"),
            );
        }
        assert(rep@ =~= before + found(
            other,
            "7.3.11.4.1",
            Some(id),
            other_coding(tile@.item.id),
        ));
        assert(rep@ =~= start + coding_findings(ts, i + 1, id));
        if first.is_none() {
            first = own;
        }
        total = add_pixels(total, tile);
    }
    let ghost coded = rep@;
    let chroma: u8 = match &first {
        Some(c) => c.chroma,
        None => 1,
    };
    if tiles.len() > 0 {
        assert(ts[0] == tiles@[0]@);
        let size: Option<(u32, u32)> = size_option(&tiles[0]);
        check_tile_size(rep, g, size, chroma, id);
        let ghost sized = rep@;
        assert(sized =~= coded + tile_size_findings(*g, size_after(ts[0]), chroma, id));
        assert(rep@ =~= sized + tile_findings(ts, 0, id));
        for i in 0..tiles.len()
            invariant
                ts == node_models(tiles@),
                tiles@.len() > 0,
                size == success(size_after(ts[0])),
                rep@ == sized + tile_findings(ts, i as int, id),
        {
            let tile: &ImageNode = &tiles[i];
            assert(ts[i as int] == tile@);
            let ghost before = rep@;
            let unequal: bool = !same_size(size_option(tile), size);
            if unequal {
                let n: String = decimal(tile.item.id as u64);
                rep.push(
                    "HEIF 6.6.2.3.1",
                    Some(id),
                    text3("tile ", n.as_str(), " size differs from the first tile"),
                );
            }
            let coded_input: bool = tile.inputs.len() > 0 && matches!(
                tile.inputs[0].kind,
                ImageKind::Coded(_)
            );
            let indirect: bool = fourcc_eq(&tile.item.item_type, &ITEM_TYPE_IDEN) && !coded_input;
            proof {
                if tile.inputs@.len() > 0 {
                    assert(tile@.inputs[0] == tile.inputs@[0]@);
                }
            }
            if indirect {
                rep.push(
                    "7.3.11.4.1",
                    Some(id),
                    text1("grid of iden items whose iden does not refer directly to a coded image"),
                );
            }
            assert(rep@ =~= before + found(
                unequal,
                "HEIF 6.6.2.3.1",
                Some(id),
                other_size(tile@.item.id),
            ) + found(indirect, "7.3.11.4.1", Some(id), not_direct()));
            assert(rep@ =~= sized + tile_findings(ts, i + 1, id));
        }
    }
    let ghost sized = rep@;
    if profile.adopts_shared_constraints() && total > GRID_LIMIT_PIXELS {
        rep.push("8.4", Some(id), over_limit("grid", total));
    }
    proof {
        let last = found(
            profile.shared() && pixel_sum(ts, ts.len() as int) > GRID_LIMIT_PIXELS,
            "8.4",
            Some(id),
            limit_message("grid"@, pixel_sum(ts, ts.len() as int)),
        );
        assert(rep@ =~= sized + last);
        assert(rep@ =~= start + grid_findings(*g, ts, profile.shared(), id));
    }
}

/// The bit depth of an overlay input: of its HEVC, else of its AV1
/// configuration.
pub open spec fn depth_of(p: ItemPropertiesModel) -> Option<int> {
    match p.first(PropertyKind::HvcC) {
        Some(PropertyModel::HvcC(h)) => Some(h.bit_depth_luma_minus8 + 8),
        _ => match p.first(PropertyKind::Av1C) {
            Some(PropertyModel::Av1C(a)) => Some(a.depth() as int),
            _ => None,
        },
    }
}

/// The bit depth of the last of the first `n` inputs that has one.
pub open spec fn last_depth(v: Seq<NodeModel>, n: int) -> Option<int>
    decreases n,
{
    if n <= 0 {
        None
    } else {
        match depth_of(v[n - 1].properties) {
            Some(d) => Some(d),
            None => last_depth(v, n - 1),
        }
    }
}

/// Whether two successive bit depths among the first `n` inputs differ.
pub open spec fn depths_differ(v: Seq<NodeModel>, n: int) -> bool
    decreases n,
{
    if n <= 0 {
        false
    } else {
        depths_differ(v, n - 1) || match (last_depth(v, n - 1), depth_of(v[n - 1].properties)) {
            (Some(a), Some(b)) => a != b,
            _ => false,
        }
    }
}

/// Whether two successive inputs differ in explicit colour information.
pub open spec fn colours_differ(v: Seq<NodeModel>) -> bool {
    exists|i: int|
        0 < i < v.len() && first_nclx((#[trigger] v[i]).properties.colrs()) != first_nclx(
            v[i - 1].properties.colrs(),
        )
}

/// What an overlay violates (§7.3.11.3, §8.4).
pub open spec fn overlay_findings(v: Seq<NodeModel>, shared: bool, id: u32) -> Seq<Finding> {
    let n = v.len() as int;
    found(
        depths_differ(v, n),
        "7.3.11.3",
        Some(id),
        "overlay inputs differ in bit depth"@,
    ) + found(
        colours_differ(v),
        "7.3.11.3",
        Some(id),
        "overlay inputs differ in explicit colour information"@,
    ) + found(
        shared && pixel_sum(v, n) > GRID_LIMIT_PIXELS,
        "8.4",
        Some(id),
        limit_message("overlay"@, pixel_sum(v, n)),
    )
}

fn depth(p: &ItemProperties) -> (r: Option<u16>)
    ensures
        match r {
            Some(d) => depth_of(p@) == Some(d as int),
            None => depth_of(p@) is None,
        },
{
    match p.hvcc() {
        Some(h) => Some(h.bit_depth_luma_minus8 as u16 + 8),
        None => match p.av1c() {
            Some(a) => Some(a.bit_depth() as u16),
            None => None,
        },
    }
}

/// CICP entries are those of their list.
proof fn lemma_first_nclx(cs: Seq<ColrModel>)
    ensures
        first_nclx(cs) matches Some(c) ==> c is Nclx,
    decreases cs.len(),
{
    if cs.len() > 0 {
        lemma_first_nclx(cs.drop_first());
    }
}

fn same_nclx(a: &ItemProperties, b: &ItemProperties) -> (r: bool)
    ensures
        r == (first_nclx(a@.colrs()) == first_nclx(b@.colrs())),
{
    proof {
        lemma_first_nclx(a@.colrs());
        lemma_first_nclx(b@.colrs());
    }
    match (a.nclx(), b.nclx()) {
        (None, None) => true,
        (
            Some(Colr::Nclx { primaries, transfer, matrix, full_range }),
            Some(Colr::Nclx { primaries: p, transfer: t, matrix: m, full_range: f }),
        ) => *primaries == *p && *transfer == *t && *matrix == *m && *full_range == *f,
        _ => false,
    }
}

fn check_overlay(rep: &mut MiafReport, inputs: &Vec<ImageNode>, profile: MiafProfile, id: u32)
    ensures
        final(rep)@ == old(rep)@ + overlay_findings(node_models(inputs@), profile.shared(), id),
{
    let ghost start = rep@;
    let ghost v = node_models(inputs@);
    let mut last: Option<u16> = None;
    let mut depths: bool = false;
    let mut colours: bool = false;
    let mut total: u64 = 0;
    for i in 0..inputs.len()
        invariant
            v == node_models(inputs@),
            match last {
                Some(d) => last_depth(v, i as int) == Some(d as int),
                None => last_depth(v, i as int) is None,
            },
            depths == depths_differ(v, i as int),
            colours == exists|k: int|
                0 < k < i && first_nclx((#[trigger] v[k]).properties.colrs()) != first_nclx(
                    v[k - 1].properties.colrs(),
                ),
            total == pixel_sum(v, i as int),
    {
        let n: &ImageNode = &inputs[i];
        assert(v[i as int] == n@);
        let own: Option<u16> = depth(&n.properties);
        if let Some(d) = own {
            if let Some(e) = last {
                if d != e {
                    depths = true;
                }
            }
            last = own;
        }
        if i > 0 {
            assert(v[i - 1] == inputs@[i - 1]@);
            if !same_nclx(&inputs[i - 1].properties, &n.properties) {
                colours = true;
            }
        }
        total = add_pixels(total, n);
    }
    if depths {
        rep.push("7.3.11.3", Some(id), text1("overlay inputs differ in bit depth"));
    }
    if colours {
        rep.push("7.3.11.3", Some(id), text1("overlay inputs differ in explicit colour information"));
    }
    if profile.adopts_shared_constraints() && total > GRID_LIMIT_PIXELS {
        rep.push("8.4", Some(id), over_limit("overlay", total));
    }
    proof {
        assert(colours == colours_differ(v));
        assert(rep@ =~= start + overlay_findings(v, profile.shared(), id));
    }
}

/// What a node of a derivation violates, without its inputs.
pub open spec fn node_findings(n: NodeModel, shared: bool) -> Seq<Finding> {
    match n.kind {
        KindModel::Grid(g) => grid_findings(g, n.inputs, shared, n.item.id),
        KindModel::Overlay(_) => overlay_findings(n.inputs, shared, n.item.id),
        KindModel::Identity => found(
            n.inputs.len() > 0 && n.inputs[0].item.item_type == ITEM_TYPE_IDEN,
            "7.3.11.2",
            Some(n.item.id),
            "iden item derived from another iden item"@,
        ),
        _ => Seq::empty(),
    }
}

/// What a derivation violates: the node, then its inputs.
pub open spec fn tree_findings(n: NodeModel, shared: bool) -> Seq<Finding>
    decreases n, 0int, 0int,
{
    node_findings(n, shared) + inputs_findings(n, n.inputs.len() as int, shared)
}

/// What the first `k` inputs of a node violate.
pub open spec fn inputs_findings(n: NodeModel, k: int, shared: bool) -> Seq<Finding>
    decreases n.inputs, 1int, k,
{
    if k <= 0 || k > n.inputs.len() {
        Seq::empty()
    } else {
        inputs_findings(n, k - 1, shared) + tree_findings(n.inputs[k - 1], shared)
    }
}

fn walk(rep: &mut MiafReport, node: &ImageNode, profile: MiafProfile)
    ensures
        final(rep)@ == old(rep)@ + tree_findings(node@, profile.shared()),
    decreases node,
{
    let ghost start = rep@;
    let ghost n = node@;
    let id: u32 = node.item.id;
    match &node.kind {
        ImageKind::Grid(g) => check_grid(rep, g, &node.inputs, profile, id),
        ImageKind::Overlay(_) => check_overlay(rep, &node.inputs, profile, id),
        ImageKind::Identity => {
            if node.inputs.len() > 0 {
                assert(n.inputs[0] == node.inputs@[0]@);
                if fourcc_eq(&node.inputs[0].item.item_type, &ITEM_TYPE_IDEN) {
                    rep.push("7.3.11.2", Some(id), text1("iden item derived from another iden item"));
                }
            }
        },
        ImageKind::Coded(_) | ImageKind::ToneMap(_) => {},
    }
    let ghost own = rep@;
    assert(own =~= start + node_findings(n, profile.shared()));
    assert(rep@ =~= own + inputs_findings(n, 0, profile.shared()));
    let mut i: usize = 0;
    while i < node.inputs.len()
        invariant
            i <= node.inputs@.len(),
            n == node@,
            rep@ == own + inputs_findings(n, i as int, profile.shared()),
        decreases node.inputs@.len() - i,
    {
        assert(n.inputs[i as int] == node.inputs@[i as int]@);
        let ghost before = rep@;
        walk(rep, &node.inputs[i], profile);
        i = i + 1;
        assert(rep@ =~= own + inputs_findings(n, i as int, profile.shared()));
    }
    assert(rep@ =~= start + tree_findings(n, profile.shared()));
}

/// What a derivation violates: the order of its chain, then every node.
pub open spec fn derivation_findings(root: NodeModel, shared: bool) -> Seq<Finding> {
    order_findings(chain_of(root), 0, 0, false, root.item.id) + tree_findings(root, shared)
}

pub(crate) fn check_derivations(rep: &mut MiafReport, root: &ImageNode, profile: MiafProfile)
    ensures
        final(rep)@ == old(rep)@ + derivation_findings(root@, profile.shared()),
{
    let ghost start = rep@;
    check_order(rep, root);
    walk(rep, root, profile);
    assert(rep@ =~= start + derivation_findings(root@, profile.shared()));
}

proof fn lemma_node_within(n: NodeModel)
    ensures
        within(node_findings(n, false), node_findings(n, true)),
{
    let id = n.item.id;
    let total = pixel_sum(n.inputs, n.inputs.len() as int);
    let many = total > GRID_LIMIT_PIXELS;
    let what = if n.kind is Grid {
        "grid"@
    } else {
        "overlay"@
    };
    let none = found(false && many, "8.4", Some(id), limit_message(what, total));
    let more = found(true && many, "8.4", Some(id), limit_message(what, total));
    assert(none =~= Seq::empty());
    lemma_within_none(more);
    lemma_within_same(node_findings(n, false));
    match n.kind {
        KindModel::Grid(_) | KindModel::Overlay(_) => {
            let head = node_findings(n, false);
            assert(head =~= head + none);
            lemma_within_both(head, head, none, more);
            assert(node_findings(n, true) =~= head + more);
        },
        _ => {},
    }
}

proof fn lemma_tree_within(n: NodeModel)
    ensures
        within(tree_findings(n, false), tree_findings(n, true)),
    decreases n, 0int, 0int,
{
    let k = n.inputs.len() as int;
    lemma_node_within(n);
    lemma_inputs_within(n, k);
    lemma_within_both(
        node_findings(n, false),
        node_findings(n, true),
        inputs_findings(n, k, false),
        inputs_findings(n, k, true),
    );
}

proof fn lemma_inputs_within(n: NodeModel, k: int)
    ensures
        within(inputs_findings(n, k, false), inputs_findings(n, k, true)),
    decreases n.inputs, 1int, k,
{
    if 0 < k <= n.inputs.len() {
        lemma_inputs_within(n, k - 1);
        lemma_tree_within(n.inputs[k - 1]);
        lemma_within_both(
            inputs_findings(n, k - 1, false),
            inputs_findings(n, k - 1, true),
            tree_findings(n.inputs[k - 1], false),
            tree_findings(n.inputs[k - 1], true),
        );
    } else {
        lemma_within_same(inputs_findings(n, k, true));
    }
}

/// The shared constraints only add to what a derivation violates.
pub(crate) proof fn lemma_derivation_within(root: NodeModel)
    ensures
        within(derivation_findings(root, false), derivation_findings(root, true)),
{
    let head = order_findings(chain_of(root), 0, 0, false, root.item.id);
    lemma_within_same(head);
    lemma_tree_within(root);
    lemma_within_both(head, head, tree_findings(root, false), tree_findings(root, true));
}

} // verus!
