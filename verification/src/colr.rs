//! The COLR table: color glyphs as stacks of glyph layers.
use vstd::prelude::*;
use crate::binio::{be16, be32, fits, read_u16, read_u32};
use crate::handle::{handle_from_index, is_index_handle, GlyphHandle};
use crate::packet::{find_table, table_data, Packet};
use crate::order::{is_permutation, sort_order, sorted_by_key};
use crate::tag::TAG_COLR;

verus! {

/// One layer: a glyph drawn in a palette entry's color.
pub struct ColrLayer {
    pub glyph: GlyphHandle,
    pub paletteIndex: u16,
}

/// The layers of one color glyph, bottom first.
pub struct ColrLayerList {
    pub items: Vec<ColrLayer>,
}

/// A color glyph and its layers.
pub struct ColrMapping {
    pub glyph: GlyphHandle,
    pub layers: ColrLayerList,
}

/// A COLR table: its color glyphs.
pub struct ColrTable {
    pub items: Vec<ColrMapping>,
}

// ---------------------------------------------------------------------
// Byte-level description of the table.

pub open spec fn num_base_glyphs(d: Seq<u8>) -> u16 {
    be16(d, 2)
}

pub open spec fn base_glyphs_pos(d: Seq<u8>) -> u32 {
    be32(d, 4)
}

pub open spec fn layers_pos(d: Seq<u8>) -> u32 {
    be32(d, 8)
}

pub open spec fn num_layers(d: Seq<u8>) -> u16 {
    be16(d, 12)
}

/// The header, the base glyph records and the layer records all fit.
pub open spec fn colr_ok(d: Seq<u8>) -> bool {
    &&& fits(d, 0, 14)
    &&& fits(d, base_glyphs_pos(d) as int, 6 * num_base_glyphs(d))
    &&& fits(d, layers_pos(d) as int, 4 * num_layers(d))
}

pub open spec fn base_record_pos(d: Seq<u8>, j: int) -> int {
    base_glyphs_pos(d) + 6 * j
}

pub open spec fn base_gid(d: Seq<u8>, j: int) -> u16 {
    be16(d, base_record_pos(d, j))
}

pub open spec fn base_first_layer(d: Seq<u8>, j: int) -> u16 {
    be16(d, base_record_pos(d, j) + 2)
}

pub open spec fn base_num_layers(d: Seq<u8>, j: int) -> u16 {
    be16(d, base_record_pos(d, j) + 4)
}

/// How many layers of color glyph `j` lie inside the layer records.
pub open spec fn layer_count(d: Seq<u8>, j: int) -> int {
    let f = base_first_layer(d, j) as int;
    let n = base_num_layers(d, j) as int;
    let total = num_layers(d) as int;
    if f >= total {
        0
    } else if n < total - f {
        n
    } else {
        total - f
    }
}

pub open spec fn layer_gid(d: Seq<u8>, i: int) -> u16 {
    be16(d, layers_pos(d) + 4 * i)
}

pub open spec fn layer_palette_index(d: Seq<u8>, i: int) -> u16 {
    be16(d, layers_pos(d) + 4 * i + 2)
}

/// `m` is color glyph `j`: its glyph by index, and its layers that lie
/// inside the layer records, in order.
pub open spec fn mapping_matches(m: ColrMapping, d: Seq<u8>, j: int) -> bool {
    &&& is_index_handle(m.glyph, base_gid(d, j))
    &&& m.layers.items@.len() == layer_count(d, j)
    &&& forall|k: int| 0 <= k < m.layers.items@.len() ==> {
        let l = #[trigger] m.layers.items@[k];
        let i = base_first_layer(d, j) + k;
        is_index_handle(l.glyph, layer_gid(d, i)) && l.paletteIndex == layer_palette_index(d, i)
    }
}

/// `t` holds every color glyph of the table held in `d`, in order.
pub open spec fn colr_matches(t: ColrTable, d: Seq<u8>) -> bool {
    &&& t.items@.len() == num_base_glyphs(d)
    &&& forall|j: int| 0 <= j < t.items@.len() ==> mapping_matches(#[trigger] t.items@[j], d, j)
}

/// Reading a COLR table: it is readable exactly when its 14-byte header,
/// its base glyph records (count at bytes 2-3, offset at 4-7, 6 bytes each)
/// and its layer records (offset at 8-11, count at 12-13, 4 bytes each)
/// fit.  Then color glyph `j` is the glyph of bytes 0-1 of base record `j`,
/// with the layers numbered from its first layer (bytes 2-3) on, as many as
/// its layer count (bytes 4-5) says but never past the layer records, each
/// the glyph and palette entry of its layer record.
pub proof fn lemma_colr_read_law(t: ColrTable, d: Seq<u8>)
    ensures
        colr_ok(d) <==> (14 <= d.len() && be32(d, 4) + 6 * be16(d, 2) <= d.len()
            && be32(d, 8) + 4 * be16(d, 12) <= d.len()),
        colr_ok(d) && colr_matches(t, d) ==> ({
            let bp = be32(d, 4) as int;
            let lp = be32(d, 8) as int;
            let total = be16(d, 12) as int;
            &&& t.items@.len() == be16(d, 2)
            &&& forall|j: int| 0 <= j < t.items@.len() ==> {
                let m = #[trigger] t.items@[j];
                let f = be16(d, bp + 6 * j + 2) as int;
                let c = be16(d, bp + 6 * j + 4) as int;
                &&& m.glyph.index == be16(d, bp + 6 * j)
                &&& m.layers.items@.len() == (if f >= total { 0 } else if c < total - f { c } else { total - f })
                &&& forall|k: int| 0 <= k < m.layers.items@.len() ==> (#[trigger] m.layers.items@[k]).glyph.index
                    == be16(d, lp + 4 * (f + k)) && m.layers.items@[k].paletteIndex == be16(d, lp + 4 * (f + k) + 2)
            }
        }),
{
    if colr_ok(d) && colr_matches(t, d) {
        assert forall|j: int| 0 <= j < t.items@.len() implies mapping_matches(#[trigger] t.items@[j], d, j) by {}
    }
}

// ---------------------------------------------------------------------
// Reading.

fn read_mapping(data: &[u8], j: u16) -> (r: ColrMapping)
    requires
        colr_ok(data@),
        j < num_base_glyphs(data@),
    ensures
        mapping_matches(r, data@, j as int),
{
    let ghost d = data@;
    let len = data.len();
    let base = read_u32(data, 4).unwrap() as usize;
    let layers_at = read_u32(data, 8).unwrap() as usize;
    let n_layers = read_u16(data, 12).unwrap();
    let rec = base + 6 * (j as usize);
    let gid = read_u16(data, rec).unwrap();
    let first = read_u16(data, rec + 2).unwrap();
    let num = read_u16(data, rec + 4).unwrap();
    let mut layers: Vec<ColrLayer> = Vec::new();
    let mut k: u16 = 0;
    while k < num
        invariant
            k <= num,
            d == data@,
            len == d.len(),
            colr_ok(d),
            layers_at == layers_pos(d),
            n_layers == num_layers(d),
            first == base_first_layer(d, j as int),
            num == base_num_layers(d, j as int),
            layers@.len() == (if first >= n_layers { 0 } else if k < n_layers - first { k as int } else { n_layers - first }),
            forall|m: int| 0 <= m < layers@.len() ==> {
                let l = #[trigger] layers@[m];
                let i = first + m;
                is_index_handle(l.glyph, layer_gid(d, i)) && l.paletteIndex == layer_palette_index(d, i)
            },
        decreases num - k,
    {
        let i = k as usize + first as usize;
        if i < n_layers as usize {
            let p = layers_at + 4 * i;
            let glyph = handle_from_index(read_u16(data, p).unwrap());
            let palette_index = read_u16(data, p + 2).unwrap();
            layers.push(ColrLayer { glyph, paletteIndex: palette_index });
        }
        k = k + 1;
    }
    ColrMapping { glyph: handle_from_index(gid), layers: ColrLayerList { items: layers } }
}

/// The color glyphs of the COLR table held in `data`; `None` when the
/// header or either record array does not fit.
pub fn read_colr(data: &[u8]) -> (r: Option<ColrTable>)
    ensures
        match r {
            Some(t) => colr_ok(data@) && colr_matches(t, data@),
            None => !colr_ok(data@),
        },
{
    let len = data.len();
    if len < 14 {
        return None;
    }
    let n_base = read_u16(data, 2).unwrap();
    let n_layers = read_u16(data, 12).unwrap();
    let base = read_u32(data, 4).unwrap() as usize;
    let layers_at = read_u32(data, 8).unwrap() as usize;
    if base > len || (len - base) / 6 < n_base as usize {
        return None;
    }
    if layers_at > len || (len - layers_at) / 4 < n_layers as usize {
        return None;
    }
    let mut items: Vec<ColrMapping> = Vec::with_capacity(n_base as usize);
    let mut j: u16 = 0;
    while j < n_base
        invariant
            j <= n_base,
            colr_ok(data@),
            n_base == num_base_glyphs(data@),
            items@.len() == j,
            forall|k: int| 0 <= k < j ==> mapping_matches(#[trigger] items@[k], data@, k),
        decreases n_base - j,
    {
        items.push(read_mapping(data, j));
        j = j + 1;
    }
    Some(ColrTable { items })
}

/// The COLR table of `packet`: `None` when there is none or it is corrupted.
pub fn otfcc_readCOLR(packet: &Packet) -> (r: Option<ColrTable>)
    ensures
        match table_data(packet.pieces@, TAG_COLR) {
            Some(d) => match r {
                Some(t) => colr_ok(d) && colr_matches(t, d),
                None => !colr_ok(d),
            },
            None => r is None,
        },
{
    let data = find_table(packet, TAG_COLR)?;
    read_colr(data)
}

// ---------------------------------------------------------------------
// The content of a table as written.

/// A base glyph record: glyph id, first layer record, number of layers.
#[derive(Copy, Clone, PartialEq, Eq, Structural, Debug)]
pub struct ColrBaseRecord {
    pub gid: u16,
    pub first_layer: u16,
    pub num_layers: u16,
}

/// A layer record: glyph id and palette entry.
#[derive(Copy, Clone, PartialEq, Eq, Structural, Debug)]
pub struct ColrLayerRecord {
    pub gid: u16,
    pub palette_index: u16,
}

/// What is written for a COLR table: its base glyph records, its layer
/// records, and the number of layer records (as written, 16 bits).
pub struct ColrRecords {
    pub base_records: Vec<ColrBaseRecord>,
    pub layer_records: Vec<ColrLayerRecord>,
    pub num_layer_records: u16,
}

/// The number of layers of the color glyphs visited first, in `order`.
pub open spec fn layers_before(t: ColrTable, order: Seq<usize>, i: int) -> int
    decreases i,
{
    if i <= 0 {
        0
    } else {
        layers_before(t, order, i - 1) + t.items@[order[i - 1] as int].layers.items@.len()
    }
}

/// The layer records of the color glyphs visited first, in `order`.
pub open spec fn layer_records_before(t: ColrTable, order: Seq<usize>, i: int) -> Seq<ColrLayerRecord>
    decreases i,
{
    if i <= 0 {
        Seq::empty()
    } else {
        let m = t.items@[order[i - 1] as int];
        layer_records_before(t, order, i - 1) + m.layers.items@.map_values(
            |l: ColrLayer| ColrLayerRecord { gid: l.glyph.index, palette_index: l.paletteIndex },
        )
    }
}

/// The base record written for the `i`-th color glyph visited in `order`.
pub open spec fn base_record_at(t: ColrTable, order: Seq<usize>, i: int) -> ColrBaseRecord {
    ColrBaseRecord {
        gid: t.items@[order[i] as int].glyph.index,
        first_layer: (layers_before(t, order, i) % 0x10000) as u16,
        num_layers: (t.items@[order[i] as int].layers.items@.len() % 0x10000) as u16,
    }
}

/// `r` is what is written for `t` when its color glyphs are visited in
/// `order`: one base record per color glyph, its layers numbered on from
/// those before it (16 bits), and all layer records in the same order.
pub open spec fn colr_records_match(r: ColrRecords, t: ColrTable, order: Seq<usize>) -> bool {
    &&& r.base_records@.len() == t.items@.len()
    &&& forall|i: int| 0 <= i < r.base_records@.len() ==> #[trigger] r.base_records@[i] == base_record_at(t, order, i)
    &&& r.layer_records@ == layer_records_before(t, order, t.items@.len() as int)
    &&& r.num_layer_records == (layers_before(t, order, t.items@.len() as int) % 0x10000) as u16
}

/// The glyph ids of the color glyphs of `t`.
pub open spec fn colr_gids(t: ColrTable) -> Seq<u16> {
    t.items@.map_values(|m: ColrMapping| m.glyph.index)
}

proof fn lemma_layers_before_mono(t: ColrTable, order: Seq<usize>, i: int, j: int)
    requires
        0 <= i <= j,
    ensures
        layers_before(t, order, i) <= layers_before(t, order, j),
    decreases j - i,
{
    if i < j {
        lemma_layers_before_mono(t, order, i, j - 1);
    }
}

/// The layer records written for the first `m` color glyphs visited:
/// glyph `i`'s layers from position `layers_before(i)` on.
proof fn lemma_layer_records_at(t: ColrTable, order: Seq<usize>, m: int)
    requires
        0 <= m,
    ensures
        layer_records_before(t, order, m).len() == layers_before(t, order, m),
        forall|i: int, k: int| 0 <= i < m && 0 <= k < t.items@[order[i] as int].layers.items@.len() ==> {
            let l = #[trigger] t.items@[order[i] as int].layers.items@[k];
            let w = layer_records_before(t, order, m)[layers_before(t, order, i) + k];
            w.gid == l.glyph.index && w.palette_index == l.paletteIndex
        },
    decreases m,
{
    if m > 0 {
        lemma_layer_records_at(t, order, m - 1);
        let prev = layer_records_before(t, order, m - 1);
        let cur = layer_records_before(t, order, m);
        let ms = t.items@[order[m - 1] as int].layers.items@.map_values(
            |l: ColrLayer| ColrLayerRecord { gid: l.glyph.index, palette_index: l.paletteIndex },
        );
        assert(cur == prev + ms);
        assert forall|i: int, k: int| 0 <= i < m && 0 <= k < t.items@[order[i] as int].layers.items@.len() implies {
            let l = #[trigger] t.items@[order[i] as int].layers.items@[k];
            let w = cur[layers_before(t, order, i) + k];
            w.gid == l.glyph.index && w.palette_index == l.paletteIndex
        } by {
            if i < m - 1 {
                lemma_layers_before_mono(t, order, i + 1, m - 1);
                assert(layers_before(t, order, i + 1) == layers_before(t, order, i) + t.items@[order[i] as int].layers.items@.len());
                let x = layers_before(t, order, i) + k;
                lemma_layers_before_mono(t, order, 0, i);
                assert(0 <= x < prev.len());
                assert((prev + ms)[x] == prev[x]);
            }
        }
    }
}

/// `rec` is what is written for `t`: its color glyphs visited in an order
/// sorted by glyph id.
pub open spec fn colr_build_result(rec: ColrRecords, t: ColrTable) -> bool {
    exists|order: Seq<usize>| {
        &&& is_permutation(order, t.items@.len() as int)
        &&& sorted_by_key(order, colr_gids(t))
        &&& colr_records_match(rec, t, order)
    }
}

/// What is written for a COLR table: one base glyph record per color
/// glyph, each made from one color glyph (its glyph id and its number of
/// layers, 16 bits), every color glyph used once; the records come in
/// non-decreasing order of glyph id; the first starts at layer record 0
/// and each next one where the previous one's layers end (16 bits), and
/// the number of layer records is where the last one's end.
pub proof fn lemma_colr_build_law(rec: ColrRecords, t: ColrTable)
    requires
        colr_build_result(rec, t),
    ensures
        rec.base_records@.len() == t.items@.len(),
        forall|i: int, j: int| 0 <= i < j < rec.base_records@.len() ==> rec.base_records@[i].gid <= rec.base_records@[j].gid,
        exists|order: Seq<usize>| {
            &&& is_permutation(order, t.items@.len() as int)
            &&& forall|i: int| 0 <= i < rec.base_records@.len() ==> {
                &&& (#[trigger] rec.base_records@[i]).gid == t.items@[order[i] as int].glyph.index
                &&& rec.base_records@[i].num_layers == (t.items@[order[i] as int].layers.items@.len() % 0x10000) as u16
            }
            &&& layers_before(t, order, 0) == 0
            &&& forall|i: int| 0 <= i < t.items@.len() ==> #[trigger] layers_before(t, order, i + 1)
                == layers_before(t, order, i) + t.items@[order[i] as int].layers.items@.len()
            &&& rec.layer_records@.len() == layers_before(t, order, t.items@.len() as int)
            &&& forall|i: int, k: int| 0 <= i < t.items@.len() && 0 <= k < t.items@[order[i] as int].layers.items@.len()
                ==> {
                    let l = #[trigger] t.items@[order[i] as int].layers.items@[k];
                    let w = rec.layer_records@[layers_before(t, order, i) + k];
                    w.gid == l.glyph.index && w.palette_index == l.paletteIndex
                }
        },
        rec.base_records@.len() > 0 ==> rec.base_records@[0].first_layer == 0,
        forall|i: int| 0 <= i < rec.base_records@.len() - 1 ==> (#[trigger] rec.base_records@[i + 1]).first_layer
            == ((rec.base_records@[i].first_layer + rec.base_records@[i].num_layers) % 0x10000) as u16,
        rec.base_records@.len() > 0 ==> rec.num_layer_records == ((rec.base_records@.last().first_layer
            + rec.base_records@.last().num_layers) % 0x10000) as u16,
{
    let order = choose|order: Seq<usize>| {
        &&& is_permutation(order, t.items@.len() as int)
        &&& sorted_by_key(order, colr_gids(t))
        &&& colr_records_match(rec, t, order)
    };
    let n = rec.base_records@.len() as int;
    lemma_layer_records_at(t, order, t.items@.len() as int);
    assert forall|i: int| 0 <= i < t.items@.len() implies #[trigger] layers_before(t, order, i + 1)
        == layers_before(t, order, i) + t.items@[order[i] as int].layers.items@.len() by {}
    assert forall|i: int| 0 <= i < n implies {
        &&& (#[trigger] rec.base_records@[i]).gid == t.items@[order[i] as int].glyph.index
        &&& rec.base_records@[i].num_layers == (t.items@[order[i] as int].layers.items@.len() % 0x10000) as u16
    } by {
        assert(rec.base_records@[i] == base_record_at(t, order, i));
    }
    assert forall|i: int, j: int| 0 <= i < j < n implies rec.base_records@[i].gid <= rec.base_records@[j].gid by {
        assert(rec.base_records@[i] == base_record_at(t, order, i));
        assert(rec.base_records@[j] == base_record_at(t, order, j));
        assert(colr_gids(t)[order[i] as int] == t.items@[order[i] as int].glyph.index);
        assert(colr_gids(t)[order[j] as int] == t.items@[order[j] as int].glyph.index);
    }
    assert forall|i: int| 0 <= i < n - 1 implies (#[trigger] rec.base_records@[i + 1]).first_layer
        == ((rec.base_records@[i].first_layer + rec.base_records@[i].num_layers) % 0x10000) as u16 by {
        assert(rec.base_records@[i] == base_record_at(t, order, i));
        assert(rec.base_records@[i + 1] == base_record_at(t, order, i + 1));
        let a = layers_before(t, order, i);
        let b = t.items@[order[i] as int].layers.items@.len() as int;
        assert(layers_before(t, order, i + 1) == a + b);
        vstd::arithmetic::div_mod::lemma_add_mod_noop(a, b, 0x10000);
    }
    if n > 0 {
        assert(rec.base_records@[0] == base_record_at(t, order, 0));
        assert(rec.base_records@.last() == base_record_at(t, order, n - 1));
        let a = layers_before(t, order, n - 1);
        let b = t.items@[order[n - 1] as int].layers.items@.len() as int;
        assert(layers_before(t, order, n) == a + b);
        vstd::arithmetic::div_mod::lemma_add_mod_noop(a, b, 0x10000);
    }
}

/// The records written for `colr`: its color glyphs ordered by glyph id.
pub fn otfcc_buildCOLR(colr: &ColrTable) -> (r: Option<ColrRecords>)
    ensures
        match r {
            None => colr.items@.len() == 0,
            Some(rec) => colr.items@.len() > 0 && colr_build_result(rec, *colr),
        },
        r matches Some(rec) ==> forall|i: int, j: int| 0 <= i < j < rec.base_records@.len()
            ==> rec.base_records@[i].gid <= rec.base_records@[j].gid,
{
    if colr.items.len() == 0 {
        return None;
    }
    let mut gids: Vec<u16> = Vec::with_capacity(colr.items.len());
    let mut i: usize = 0;
    while i < colr.items.len()
        invariant
            i <= colr.items@.len(),
            gids@ =~= colr_gids(*colr).subrange(0, i as int),
        decreases colr.items@.len() - i,
    {
        gids.push(colr.items[i].glyph.index);
        i = i + 1;
    }
    assert(gids@ =~= colr_gids(*colr));
    let order = sort_order(&gids);
    let ghost n = colr.items@.len() as int;
    let mut base_records: Vec<ColrBaseRecord> = Vec::with_capacity(colr.items.len());
    let mut layer_records: Vec<ColrLayerRecord> = Vec::new();
    let mut current: u16 = 0;
    let mut q: usize = 0;
    while q < order.len()
        invariant
            q <= order@.len(),
            is_permutation(order@, n),
            n == colr.items@.len(),
            base_records@.len() == q,
            forall|k: int| 0 <= k < q ==> #[trigger] base_records@[k] == base_record_at(*colr, order@, k),
            layer_records@ == layer_records_before(*colr, order@, q as int),
            current == layers_before(*colr, order@, q as int) % 0x10000,
        decreases order@.len() - q,
    {
        let m = &colr.items[order[q]];
        let count = #[verifier::truncate] (m.layers.items.len() as u16);
        proof {
            crate::binio::lemma_u16_trunc(m.layers.items@.len() as usize);
        }
        base_records.push(ColrBaseRecord { gid: m.glyph.index, first_layer: current, num_layers: count });
        let ghost start = layer_records@;
        let ghost cur0 = current as int;
        let mut k: usize = 0;
        while k < m.layers.items.len()
            invariant
                k <= m.layers.items@.len(),
                layer_records@ == start + m.layers.items@.subrange(0, k as int).map_values(
                    |l: ColrLayer| ColrLayerRecord { gid: l.glyph.index, palette_index: l.paletteIndex },
                ),
                current == (cur0 + k) % 0x10000,
                0 <= cur0 < 0x10000,
            decreases m.layers.items@.len() - k,
        {
            let l = &m.layers.items[k];
            layer_records.push(ColrLayerRecord { gid: l.glyph.index, palette_index: l.paletteIndex });
            current = current.wrapping_add(1);
            k = k + 1;
            assert(layer_records@ =~= start + m.layers.items@.subrange(0, k as int).map_values(
                |l: ColrLayer| ColrLayerRecord { gid: l.glyph.index, palette_index: l.paletteIndex },
            ));
        }
        assert(m.layers.items@.subrange(0, m.layers.items@.len() as int) =~= m.layers.items@);
        q = q + 1;
    }
    let rec = ColrRecords { base_records, layer_records, num_layer_records: current };
    proof {
        assert(colr_build_result(rec, *colr));
        lemma_colr_build_law(rec, *colr);
    }
    Some(rec)
}

} // verus!
