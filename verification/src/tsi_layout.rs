//! What reading gives back of a written TSI0/TSI1 or TSI2/TSI3 pair.
//!
//! The writer lays out a flat list of records: each one a glyph id and a
//! text, its index record pointing at the text's start (the marker record,
//! glyph id 0xfffe, points at a fixed position instead).  Reading such a
//! layout gives back exactly the records with a usable id and a non-empty
//! text.
use vstd::prelude::*;
use crate::binio::{be16_bytes, be32_bytes, lemma_be16_roundtrip, lemma_be32_roundtrip};
use crate::tag::TAG_TSI0;
use crate::tsi::{entries_upto, group, group_count, group_padded, index_record, len_field, marker_record, n_pad, off_field, pad, pad_gid, predicted, proper_gid, rec_gid, rec_len, rec_off, n_records, record_entry, text_length, tsi_build, type_of_gid, valid_gid, TsiEntry, TsiEntryType};

verus! {

/// A laid-out record: glyph id and text.
pub type Item = (u16, Seq<u8>);

/// The offset field of a record with glyph id `gid` whose text starts at `p`.
pub open spec fn layout_off(gid: u16, p: int) -> u32 {
    if gid == 0xfffe {
        0xabfc1f34
    } else {
        off_field(p)
    }
}

/// The texts of `items`, one after the other.
pub open spec fn texts(items: Seq<Item>) -> Seq<u8>
    decreases items.len(),
{
    if items.len() == 0 {
        Seq::empty()
    } else {
        texts(items.drop_last()) + items.last().1
    }
}

/// The index records of `items`, when `p0` bytes of text precede theirs.
pub open spec fn records(items: Seq<Item>, p0: int) -> Seq<u8>
    decreases items.len(),
{
    if items.len() == 0 {
        Seq::empty()
    } else {
        let pre = items.drop_last();
        let it = items.last();
        records(pre, p0) + index_record(it.0, len_field(it.1.len() as int), layout_off(it.0, p0 + texts(pre).len()))
    }
}

/// Where the text of item `j` starts: the length of the texts before it.
pub open spec fn start(items: Seq<Item>, j: int) -> int {
    texts(items.take(j)).len() as int
}

/// The text of item `j` stands at its start.
proof fn lemma_texts_at(items: Seq<Item>, j: int)
    requires
        0 <= j < items.len(),
    ensures
        texts(items).subrange(start(items, j), start(items, j) + items[j].1.len()) == items[j].1,
        start(items, j + 1) == start(items, j) + items[j].1.len(),
        start(items, j + 1) <= texts(items).len(),
    decreases items.len(),
{
    let n = items.len() as int;
    let pre = items.drop_last();
    assert(items.take(j + 1).drop_last() =~= items.take(j));
    if j < n - 1 {
        lemma_texts_at(pre, j);
        assert(pre.take(j) =~= items.take(j));
        assert(pre.take(j + 1) =~= items.take(j + 1));
        let s = start(items, j);
        let e = s + items[j].1.len();
        assert(texts(items).subrange(s, e) =~= texts(pre).subrange(s, e));
    } else {
        assert(items.take(j) =~= pre);
        assert(items.take(j + 1) =~= items);
    }
}

/// The index part has one 8-byte record per item.
proof fn lemma_records_len(items: Seq<Item>, p0: int)
    ensures
        records(items, p0).len() == 8 * items.len(),
    decreases items.len(),
{
    if items.len() > 0 {
        lemma_records_len(items.drop_last(), p0);
    }
}

/// The record of item `j` points at its text.
proof fn lemma_records_at(items: Seq<Item>, p0: int, j: int)
    requires
        0 <= j < items.len(),
    ensures
        records(items, p0).subrange(8 * j, 8 * j + 8)
            == index_record(items[j].0, len_field(items[j].1.len() as int), layout_off(items[j].0, p0 + start(items, j))),
    decreases items.len(),
{
    let n = items.len() as int;
    let pre = items.drop_last();
    lemma_records_len(pre, p0);
    let r = records(items, p0);
    let rp = records(pre, p0);
    if j < n - 1 {
        lemma_records_at(pre, p0, j);
        assert(pre.take(j) =~= items.take(j));
        assert(r.subrange(8 * j, 8 * j + 8) =~= rp.subrange(8 * j, 8 * j + 8));
    } else {
        assert(items.take(j) =~= pre);
        assert(r.subrange(8 * j, 8 * j + 8) =~= index_record(items[j].0, len_field(items[j].1.len() as int), layout_off(items[j].0, p0 + start(items, j))));
    }
}

/// What the reader finds in the record of item `j`.
proof fn lemma_record_fields(items: Seq<Item>, p0: int, j: int)
    requires
        0 <= j < items.len(),
    ensures
        n_records(records(items, p0)) == items.len(),
        rec_gid(records(items, p0), j) == items[j].0,
        rec_len(records(items, p0), j) == len_field(items[j].1.len() as int),
        rec_off(records(items, p0), j) == layout_off(items[j].0, p0 + start(items, j)),
{
    let idx = records(items, p0);
    lemma_records_len(items, p0);
    lemma_records_at(items, p0, j);
    let gid = items[j].0;
    let len = len_field(items[j].1.len() as int);
    let off = layout_off(items[j].0, p0 + start(items, j));
    let r = idx.subrange(8 * j, 8 * j + 8);
    assert(r == be16_bytes(gid) + be16_bytes(len) + be32_bytes(off));
    assert(idx.subrange(8 * j, 8 * j + 2) =~= be16_bytes(gid)) by {
        assert(idx.subrange(8 * j, 8 * j + 2) =~= r.subrange(0, 2));
    }
    assert(idx.subrange(8 * j + 2, 8 * j + 4) =~= be16_bytes(len)) by {
        assert(idx.subrange(8 * j + 2, 8 * j + 4) =~= r.subrange(2, 4));
    }
    assert(idx.subrange(8 * j + 4, 8 * j + 8) =~= be32_bytes(off)) by {
        assert(idx.subrange(8 * j + 4, 8 * j + 8) =~= r.subrange(4, 8));
    }
    lemma_be16_roundtrip(idx, 8 * j, gid);
    lemma_be16_roundtrip(idx, 8 * j + 2, len);
    lemma_be32_roundtrip(idx, 8 * j + 4, off);
}

/// A layout the reader can follow: the texts fit 32-bit offsets and the
/// marker records have no text.
pub open spec fn layout_ok(items: Seq<Item>) -> bool {
    &&& texts(items).len() < 0x1_0000_0000
    &&& forall|m: int| 0 <= m < items.len() && (#[trigger] items[m]).0 == 0xfffe ==> items[m].1.len() == 0
}

/// The reader's view of item `k` of an acceptable layout.
proof fn lemma_item_view(items: Seq<Item>, k: int)
    requires
        layout_ok(items),
        0 <= k < items.len(),
    ensures
        n_records(records(items, 0)) == items.len(),
        rec_gid(records(items, 0), k) == items[k].0,
        rec_len(records(items, 0), k) == len_field(items[k].1.len() as int),
        items[k].0 != 0xfffe ==> rec_off(records(items, 0), k) == start(items, k),
        start(items, k + 1) == start(items, k) + items[k].1.len(),
        start(items, k + 1) <= texts(items).len(),
        texts(items).subrange(start(items, k), start(items, k) + items[k].1.len()) == items[k].1,
        0 <= start(items, k),
{
    lemma_record_fields(items, 0, k);
    lemma_texts_at(items, k);
}

/// With no usable record from `k` on (all of them start at the end of the
/// texts), the length of record `j` is predicted to run to the end.
proof fn lemma_predicted_tail(items: Seq<Item>, j: int, k: int)
    requires
        layout_ok(items),
        0 <= j < k <= items.len(),
        start(items, k) == texts(items).len(),
    ensures
        predicted(records(items, 0), texts(items).len() as u32, j, k) == texts(items).len() - rec_off(records(items, 0), j),
    decreases items.len() - k,
{
    let idx = records(items, 0);
    lemma_records_len(items, 0);
    if k < items.len() {
        lemma_item_view(items, k);
        lemma_predicted_tail(items, j, k + 1);
    }
}

/// The predicted length of a non-empty record `j` is its text's length
/// when the records between it and `k` are markers.
proof fn lemma_predicted_next(items: Seq<Item>, j: int, k: int)
    requires
        layout_ok(items),
        0 <= j < k <= items.len(),
        items[j].0 != 0xfffe,
        items[j].1.len() > 0,
        start(items, k) == start(items, j) + items[j].1.len(),
    ensures
        predicted(records(items, 0), texts(items).len() as u32, j, k) == items[j].1.len(),
    decreases items.len() - k,
{
    let idx = records(items, 0);
    lemma_records_len(items, 0);
    lemma_item_view(items, j);
    if k == items.len() {
        assert(items.take(k) =~= items);
    } else {
        lemma_item_view(items, k);
        if items[k].0 == 0xfffe {
            lemma_predicted_next(items, j, k + 1);
        } else if start(items, k) == texts(items).len() {
            lemma_predicted_tail(items, j, k);
        }
    }
}

/// What reading gives for the items of a layout under the index tag
/// `tag_index`: each item with a usable glyph id and a non-empty text, as
/// (type, glyph id, text).
pub open spec fn read_items(items: Seq<Item>, tag_index: u32) -> Seq<(TsiEntryType, u16, Seq<u8>)>
    decreases items.len(),
{
    if items.len() == 0 {
        Seq::empty()
    } else {
        let prev = read_items(items.drop_last(), tag_index);
        let it = items.last();
        if valid_gid(it.0, tag_index) && it.1.len() > 0 {
            prev.push((type_of_gid(it.0), it.0, it.1))
        } else {
            prev
        }
    }
}

/// The reader's verdict on record `j` of an acceptable layout.
proof fn lemma_record_entry(items: Seq<Item>, tag_index: u32, j: int)
    requires
        layout_ok(items),
        0 <= j < items.len(),
    ensures
        record_entry(records(items, 0), texts(items), tag_index, j) == if valid_gid(items[j].0, tag_index) && items[j].1.len() > 0 {
            Some((type_of_gid(items[j].0), items[j].0, items[j].1))
        } else {
            None::<(TsiEntryType, u16, Seq<u8>)>
        },
{
    let idx = records(items, 0);
    let text = texts(items);
    let tl = text.len() as u32;
    lemma_item_view(items, j);
    if items[j].0 != 0xfffe && items[j].1.len() > 0 {
        assert(text_length(idx, tl, j) == items[j].1.len()) by {
            if items[j].1.len() >= 0x8000 {
                lemma_predicted_next(items, j, j + 1);
            }
        }
    }
}

/// Reading the first `m` records of an acceptable layout.
proof fn lemma_entries_upto(items: Seq<Item>, tag_index: u32, m: int)
    requires
        layout_ok(items),
        0 <= m <= items.len(),
    ensures
        entries_upto(records(items, 0), texts(items), tag_index, m) == read_items(items.take(m), tag_index),
    decreases m,
{
    if m > 0 {
        lemma_entries_upto(items, tag_index, m - 1);
        lemma_record_entry(items, tag_index, m - 1);
        assert(items.take(m).drop_last() =~= items.take(m - 1));
    }
}

/// Reading a whole acceptable layout gives back its usable items.
proof fn lemma_read_layout(items: Seq<Item>, tag_index: u32)
    requires
        layout_ok(items),
    ensures
        entries_upto(records(items, 0), texts(items), tag_index, n_records(records(items, 0))) == read_items(items, tag_index),
{
    lemma_records_len(items, 0);
    lemma_entries_upto(items, tag_index, items.len() as int);
    assert(items.take(items.len() as int) =~= items);
}

// ---------------------------------------------------------------------
// The writer's layout.

/// The items written for the entries of `es` of type `ty`.
pub open spec fn group_items(es: Seq<TsiEntry>, ty: TsiEntryType) -> Seq<Item>
    decreases es.len(),
{
    if es.len() == 0 {
        Seq::empty()
    } else {
        let prev = group_items(es.drop_last(), ty);
        let e = es.last();
        if e.type_0 == ty {
            prev.push((proper_gid(e, ty), e.content@))
        } else {
            prev
        }
    }
}

/// `n` empty padding items of type `ty`.
pub open spec fn pad_items(ty: TsiEntryType, n: nat) -> Seq<Item>
    decreases n,
{
    if n == 0 {
        Seq::empty()
    } else {
        pad_items(ty, (n - 1) as nat).push((pad_gid(ty), Seq::<u8>::empty()))
    }
}

/// The items written for type `ty` with at least `min_n` records.
pub open spec fn padded_items(es: Seq<TsiEntry>, ty: TsiEntryType, min_n: u16) -> Seq<Item> {
    group_items(es, ty) + pad_items(ty, n_pad(group_count(es, ty), min_n))
}

/// The marker item.
pub open spec fn marker_item() -> Seq<Item> {
    seq![(0xfffeu16, Seq::<u8>::empty())]
}

/// Every item the writer lays out for `es`, in order.
pub open spec fn build_items(es: Seq<TsiEntry>) -> Seq<Item> {
    padded_items(es, TsiEntryType::Glyph, 0)
        + marker_item()
        + padded_items(es, TsiEntryType::Prep, 1)
        + padded_items(es, TsiEntryType::Cvt, 1)
        + padded_items(es, TsiEntryType::ReservedFffc, 1)
        + padded_items(es, TsiEntryType::Fpgm, 1)
}

/// No glyph entry of `es` uses one of the ids reserved for the programs
/// and the marker.
pub open spec fn glyph_ids_usable(es: Seq<TsiEntry>) -> bool {
    forall|i: int| 0 <= i < es.len() && (#[trigger] es[i]).type_0 == TsiEntryType::Glyph
        ==> !(0xfffa <= es[i].glyph.index <= 0xfffe)
}

proof fn lemma_texts_concat(a: Seq<Item>, b: Seq<Item>)
    ensures
        texts(a + b) == texts(a) + texts(b),
    decreases b.len(),
{
    if b.len() == 0 {
        assert(a + b =~= a);
        assert(texts(a) + texts(b) =~= texts(a));
    } else {
        lemma_texts_concat(a, b.drop_last());
        assert((a + b).drop_last() =~= a + b.drop_last());
        assert(texts(a + b) =~= texts(a) + texts(b));
    }
}

proof fn lemma_records_concat(a: Seq<Item>, b: Seq<Item>, p0: int)
    ensures
        records(a + b, p0) == records(a, p0) + records(b, p0 + texts(a).len()),
    decreases b.len(),
{
    if b.len() == 0 {
        assert(a + b =~= a);
        assert(records(a, p0) + records(b, p0 + texts(a).len()) =~= records(a, p0));
    } else {
        let bp = b.drop_last();
        lemma_records_concat(a, bp, p0);
        lemma_texts_concat(a, bp);
        assert((a + b).drop_last() =~= a + bp);
        assert(records(a + b, p0) =~= records(a, p0) + records(b, p0 + texts(a).len()));
    }
}

/// The writer's group of type `ty` is the layout of its items.
proof fn lemma_group_layout(es: Seq<TsiEntry>, ty: TsiEntryType, p0: int)
    requires
        glyph_ids_usable(es),
    ensures
        group(es, ty, p0) == (records(group_items(es, ty), p0), texts(group_items(es, ty))),
    decreases es.len(),
{
    if es.len() > 0 {
        let pre = es.drop_last();
        assert(glyph_ids_usable(pre)) by {
            assert forall|i: int| 0 <= i < pre.len() && (#[trigger] pre[i]).type_0 == TsiEntryType::Glyph
                implies !(0xfffa <= pre[i].glyph.index <= 0xfffe) by {
                assert(pre[i] == es[i]);
            }
        }
        lemma_group_layout(pre, ty, p0);
        let e = es.last();
        assert(e == es[es.len() - 1]);
        if e.type_0 == ty {
            let gi = group_items(es, ty);
            assert(gi.drop_last() =~= group_items(pre, ty));
            assert(proper_gid(e, ty) != 0xfffe);
        }
    }
}

/// Padding is the layout of empty padding items.
proof fn lemma_pad_layout(ty: TsiEntryType, n: nat, pos: int)
    ensures
        pad(ty, n, pos) == records(pad_items(ty, n), pos),
        texts(pad_items(ty, n)) == Seq::<u8>::empty(),
    decreases n,
{
    if n > 0 {
        lemma_pad_layout(ty, (n - 1) as nat, pos);
        let pi = pad_items(ty, n);
        assert(pi.drop_last() =~= pad_items(ty, (n - 1) as nat));
        assert(texts(pi) =~= Seq::<u8>::empty());
        assert(len_field(0) == 0);
    }
}

/// A padded group is the layout of its items.
proof fn lemma_padded_layout(es: Seq<TsiEntry>, ty: TsiEntryType, min_n: u16, p0: int)
    requires
        glyph_ids_usable(es),
    ensures
        group_padded(es, ty, min_n, p0) == (records(padded_items(es, ty, min_n), p0), texts(padded_items(es, ty, min_n))),
{
    let gi = group_items(es, ty);
    let pi = pad_items(ty, n_pad(group_count(es, ty), min_n));
    lemma_group_layout(es, ty, p0);
    lemma_pad_layout(ty, n_pad(group_count(es, ty), min_n), p0 + texts(gi).len());
    lemma_texts_concat(gi, pi);
    lemma_records_concat(gi, pi, p0);
    assert(texts(gi) + texts(pi) =~= texts(gi));
}

/// The marker's layout.
proof fn lemma_marker_layout(p0: int)
    ensures
        records(marker_item(), p0) == marker_record(),
        texts(marker_item()) == Seq::<u8>::empty(),
{
    let m = marker_item();
    assert(m.drop_last() =~= Seq::<Item>::empty());
    assert(len_field(0) == 0);
    assert(m.last() == (0xfffeu16, Seq::<u8>::empty()));
    assert(records(m.drop_last(), p0) =~= Seq::<u8>::empty());
    assert(layout_off(0xfffe, p0) == 0xabfc1f34);
    assert(records(m, p0) =~= marker_record());
    assert(texts(m) =~= Seq::<u8>::empty());
}

/// The two written parts are the layout of `build_items(es)`.
proof fn lemma_build_layout(es: Seq<TsiEntry>)
    requires
        glyph_ids_usable(es),
    ensures
        tsi_build(es) == (records(build_items(es), 0), texts(build_items(es))),
{
    let i1 = padded_items(es, TsiEntryType::Glyph, 0);
    let im = marker_item();
    let i2 = padded_items(es, TsiEntryType::Prep, 1);
    let i3 = padded_items(es, TsiEntryType::Cvt, 1);
    let i4 = padded_items(es, TsiEntryType::ReservedFffc, 1);
    let i5 = padded_items(es, TsiEntryType::Fpgm, 1);
    let t1 = texts(i1).len() as int;
    let t2 = t1 + texts(i2).len();
    let t3 = t2 + texts(i3).len();
    let t4 = t3 + texts(i4).len();
    lemma_padded_layout(es, TsiEntryType::Glyph, 0, 0);
    lemma_marker_layout(t1);
    lemma_padded_layout(es, TsiEntryType::Prep, 1, t1);
    lemma_padded_layout(es, TsiEntryType::Cvt, 1, t2);
    lemma_padded_layout(es, TsiEntryType::ReservedFffc, 1, t3);
    lemma_padded_layout(es, TsiEntryType::Fpgm, 1, t4);
    let a1 = i1 + im;
    let a2 = a1 + i2;
    let a3 = a2 + i3;
    let a4 = a3 + i4;
    lemma_texts_concat(i1, im);
    lemma_records_concat(i1, im, 0);
    lemma_texts_concat(a1, i2);
    lemma_records_concat(a1, i2, 0);
    lemma_texts_concat(a2, i3);
    lemma_records_concat(a2, i3, 0);
    lemma_texts_concat(a3, i4);
    lemma_records_concat(a3, i4, 0);
    lemma_texts_concat(a4, i5);
    lemma_records_concat(a4, i5, 0);
    assert(texts(a1) =~= texts(i1));
    let b = tsi_build(es);
    assert(b.0 =~= records(build_items(es), 0));
    assert(b.1 =~= texts(build_items(es)));
}

// ---------------------------------------------------------------------
// Reading back what was written.

/// Every marker item (glyph id 0xfffe) has an empty text.
pub open spec fn markers_empty(items: Seq<Item>) -> bool {
    forall|m: int| 0 <= m < items.len() && (#[trigger] items[m]).0 == 0xfffe ==> items[m].1.len() == 0
}

proof fn lemma_markers_empty_concat(a: Seq<Item>, b: Seq<Item>)
    requires
        markers_empty(a),
        markers_empty(b),
    ensures
        markers_empty(a + b),
{
    assert forall|m: int| 0 <= m < (a + b).len() && (#[trigger] (a + b)[m]).0 == 0xfffe implies (a + b)[m].1.len() == 0 by {
        if m < a.len() {
            assert((a + b)[m] == a[m]);
        } else {
            assert((a + b)[m] == b[m - a.len()]);
        }
    }
}

proof fn lemma_group_items_no_marker(es: Seq<TsiEntry>, ty: TsiEntryType)
    requires
        glyph_ids_usable(es),
    ensures
        forall|m: int| 0 <= m < group_items(es, ty).len() ==> (#[trigger] group_items(es, ty)[m]).0 != 0xfffe,
    decreases es.len(),
{
    if es.len() > 0 {
        let pre = es.drop_last();
        assert(glyph_ids_usable(pre)) by {
            assert forall|i: int| 0 <= i < pre.len() && (#[trigger] pre[i]).type_0 == TsiEntryType::Glyph
                implies !(0xfffa <= pre[i].glyph.index <= 0xfffe) by {
                assert(pre[i] == es[i]);
            }
        }
        lemma_group_items_no_marker(pre, ty);
        let e = es.last();
        assert(e == es[es.len() - 1]);
        let gi = group_items(es, ty);
        let gp = group_items(pre, ty);
        if e.type_0 == ty {
            assert(proper_gid(e, ty) != 0xfffe);
            assert forall|m: int| 0 <= m < gi.len() implies (#[trigger] gi[m]).0 != 0xfffe by {
                if m < gp.len() {
                    assert(gi[m] == gp[m]);
                }
            }
        }
    }
}

proof fn lemma_pad_items_no_marker(ty: TsiEntryType, n: nat)
    ensures
        forall|m: int| 0 <= m < pad_items(ty, n).len() ==> (#[trigger] pad_items(ty, n)[m]).0 != 0xfffe
            && pad_items(ty, n)[m].1.len() == 0,
    decreases n,
{
    if n > 0 {
        lemma_pad_items_no_marker(ty, (n - 1) as nat);
        let pi = pad_items(ty, n);
        let pp = pad_items(ty, (n - 1) as nat);
        assert forall|m: int| 0 <= m < pi.len() implies (#[trigger] pi[m]).0 != 0xfffe && pi[m].1.len() == 0 by {
            if m < pp.len() {
                assert(pi[m] == pp[m]);
            }
        }
    }
}

/// The writer's items form a layout the reader can follow when the texts
/// fit 32-bit offsets.
proof fn lemma_build_items_ok(es: Seq<TsiEntry>)
    requires
        glyph_ids_usable(es),
        texts(build_items(es)).len() < 0x1_0000_0000,
    ensures
        layout_ok(build_items(es)),
{
    let tys = seq![TsiEntryType::Glyph, TsiEntryType::Prep, TsiEntryType::Cvt, TsiEntryType::ReservedFffc, TsiEntryType::Fpgm];
    assert forall|ty: TsiEntryType, min_n: u16| #[trigger] markers_empty(padded_items(es, ty, min_n)) by {
        lemma_group_items_no_marker(es, ty);
        lemma_pad_items_no_marker(ty, n_pad(group_count(es, ty), min_n));
        let gi = group_items(es, ty);
        let pi = pad_items(ty, n_pad(group_count(es, ty), min_n));
        lemma_markers_empty_concat(gi, pi);
    }
    let i1 = padded_items(es, TsiEntryType::Glyph, 0);
    let im = marker_item();
    let i2 = padded_items(es, TsiEntryType::Prep, 1);
    let i3 = padded_items(es, TsiEntryType::Cvt, 1);
    let i4 = padded_items(es, TsiEntryType::ReservedFffc, 1);
    let i5 = padded_items(es, TsiEntryType::Fpgm, 1);
    assert(markers_empty(i1));
    assert(markers_empty(im));
    assert(markers_empty(i2));
    assert(markers_empty(i3));
    assert(markers_empty(i4));
    assert(markers_empty(i5));
    lemma_markers_empty_concat(i1, im);
    lemma_markers_empty_concat(i1 + im, i2);
    lemma_markers_empty_concat(i1 + im + i2, i3);
    lemma_markers_empty_concat(i1 + im + i2 + i3, i4);
    lemma_markers_empty_concat(i1 + im + i2 + i3 + i4, i5);
}

proof fn lemma_read_items_concat(a: Seq<Item>, b: Seq<Item>, tag_index: u32)
    ensures
        read_items(a + b, tag_index) == read_items(a, tag_index) + read_items(b, tag_index),
    decreases b.len(),
{
    if b.len() == 0 {
        assert(a + b =~= a);
        assert(read_items(a, tag_index) + read_items(b, tag_index) =~= read_items(a, tag_index));
    } else {
        lemma_read_items_concat(a, b.drop_last(), tag_index);
        assert((a + b).drop_last() =~= a + b.drop_last());
        assert(read_items(a + b, tag_index) =~= read_items(a, tag_index) + read_items(b, tag_index));
    }
}

/// What reading gives back of the entries of `es` of type `ty`: each one
/// with a non-empty text, as (type, glyph id, text), in order.
pub open spec fn read_back(es: Seq<TsiEntry>, ty: TsiEntryType) -> Seq<(TsiEntryType, u16, Seq<u8>)>
    decreases es.len(),
{
    if es.len() == 0 {
        Seq::empty()
    } else {
        let prev = read_back(es.drop_last(), ty);
        let e = es.last();
        if e.type_0 == ty && e.content@.len() > 0 {
            prev.push((ty, proper_gid(e, ty), e.content@))
        } else {
            prev
        }
    }
}

/// What reading under the index tag `tag_index` gives for the entries of
/// type `ty`: under TSI0, every type but the reserved one is read back;
/// under any other tag only glyph texts are.
pub open spec fn read_group(es: Seq<TsiEntry>, ty: TsiEntryType, tag_index: u32) -> Seq<(TsiEntryType, u16, Seq<u8>)> {
    if ty == TsiEntryType::ReservedFffc || (tag_index != TAG_TSI0 && ty != TsiEntryType::Glyph) {
        Seq::empty()
    } else {
        read_back(es, ty)
    }
}

/// The glyph ids the reader takes for glyph texts under `tag_index`:
/// those not reserved for the programs and the marker (0xfffa-0xfffe),
/// and under tags other than TSI0 not 0xffff either.
pub open spec fn glyph_ids_readable(es: Seq<TsiEntry>, tag_index: u32) -> bool {
    &&& glyph_ids_usable(es)
    &&& tag_index != TAG_TSI0 ==> forall|i: int| 0 <= i < es.len() && (#[trigger] es[i]).type_0 == TsiEntryType::Glyph
        ==> es[i].glyph.index < 0xfffa
}

proof fn lemma_read_group_items(es: Seq<TsiEntry>, ty: TsiEntryType, tag_index: u32)
    requires
        glyph_ids_readable(es, tag_index),
    ensures
        read_items(group_items(es, ty), tag_index) == read_group(es, ty, tag_index),
    decreases es.len(),
{
    if es.len() > 0 {
        let pre = es.drop_last();
        assert(glyph_ids_readable(pre, tag_index)) by {
            assert forall|i: int| 0 <= i < pre.len() && (#[trigger] pre[i]).type_0 == TsiEntryType::Glyph
                implies !(0xfffa <= pre[i].glyph.index <= 0xfffe) && (tag_index != TAG_TSI0 ==> pre[i].glyph.index < 0xfffa) by {
                assert(pre[i] == es[i]);
            }
        }
        lemma_read_group_items(pre, ty, tag_index);
        let e = es.last();
        assert(e == es[es.len() - 1]);
        if e.type_0 == ty {
            assert(group_items(es, ty).drop_last() =~= group_items(pre, ty));
        }
    }
}

proof fn lemma_read_pad_items(ty: TsiEntryType, n: nat, tag_index: u32)
    ensures
        read_items(pad_items(ty, n), tag_index) == Seq::<(TsiEntryType, u16, Seq<u8>)>::empty(),
    decreases n,
{
    if n > 0 {
        lemma_read_pad_items(ty, (n - 1) as nat, tag_index);
        assert(pad_items(ty, n).drop_last() =~= pad_items(ty, (n - 1) as nat));
    }
}

proof fn lemma_read_padded_items(es: Seq<TsiEntry>, ty: TsiEntryType, min_n: u16, tag_index: u32)
    requires
        glyph_ids_readable(es, tag_index),
    ensures
        read_items(padded_items(es, ty, min_n), tag_index) == read_group(es, ty, tag_index),
{
    let gi = group_items(es, ty);
    let pi = pad_items(ty, n_pad(group_count(es, ty), min_n));
    lemma_read_group_items(es, ty, tag_index);
    lemma_read_pad_items(ty, n_pad(group_count(es, ty), min_n), tag_index);
    lemma_read_items_concat(gi, pi, tag_index);
    assert(read_items(gi, tag_index) + read_items(pi, tag_index) =~= read_items(gi, tag_index));
}

/// Reading the writer's items gives the readable entries, grouped by type.
proof fn lemma_read_build_items(es: Seq<TsiEntry>, tag_index: u32)
    requires
        glyph_ids_readable(es, tag_index),
    ensures
        read_items(build_items(es), tag_index) == read_group(es, TsiEntryType::Glyph, tag_index)
            + read_group(es, TsiEntryType::Prep, tag_index) + read_group(es, TsiEntryType::Cvt, tag_index)
            + read_group(es, TsiEntryType::Fpgm, tag_index),
{
    let i1 = padded_items(es, TsiEntryType::Glyph, 0);
    let im = marker_item();
    let i2 = padded_items(es, TsiEntryType::Prep, 1);
    let i3 = padded_items(es, TsiEntryType::Cvt, 1);
    let i4 = padded_items(es, TsiEntryType::ReservedFffc, 1);
    let i5 = padded_items(es, TsiEntryType::Fpgm, 1);
    lemma_read_padded_items(es, TsiEntryType::Glyph, 0, tag_index);
    lemma_read_padded_items(es, TsiEntryType::Prep, 1, tag_index);
    lemma_read_padded_items(es, TsiEntryType::Cvt, 1, tag_index);
    lemma_read_padded_items(es, TsiEntryType::ReservedFffc, 1, tag_index);
    lemma_read_padded_items(es, TsiEntryType::Fpgm, 1, tag_index);
    assert(read_items(im, tag_index) =~= Seq::<(TsiEntryType, u16, Seq<u8>)>::empty()) by {
        assert(im.len() == 1);
        assert(im.drop_last().len() == 0);
        assert(read_items(im.drop_last(), tag_index) =~= Seq::<(TsiEntryType, u16, Seq<u8>)>::empty());
        assert(im.last().0 == 0xfffe);
        assert(!valid_gid(0xfffe, tag_index));
    }
    lemma_read_items_concat(i1, im, tag_index);
    lemma_read_items_concat(i1 + im, i2, tag_index);
    lemma_read_items_concat(i1 + im + i2, i3, tag_index);
    lemma_read_items_concat(i1 + im + i2 + i3, i4, tag_index);
    lemma_read_items_concat(i1 + im + i2 + i3 + i4, i5, tag_index);
    assert(read_items(build_items(es), tag_index) =~= read_group(es, TsiEntryType::Glyph, tag_index)
        + read_group(es, TsiEntryType::Prep, tag_index) + read_group(es, TsiEntryType::Cvt, tag_index)
        + read_group(es, TsiEntryType::Fpgm, tag_index));
}

/// Reading back a written TSI0/TSI1 pair gives back, in this order, the
/// glyph texts, the prep, cvt and fpgm programs (each group in table
/// order, empty texts and the reserved 0xfffc texts left out), provided
/// no glyph uses one of the ids 0xfffa-0xfffe and the text part fits
/// 32-bit offsets.
pub proof fn lemma_tsi_roundtrip(es: Seq<TsiEntry>)
    requires
        glyph_ids_usable(es),
        tsi_build(es).1.len() < 0x1_0000_0000,
    ensures
        entries_upto(tsi_build(es).0, tsi_build(es).1, TAG_TSI0, n_records(tsi_build(es).0))
            == read_back(es, TsiEntryType::Glyph) + read_back(es, TsiEntryType::Prep)
            + read_back(es, TsiEntryType::Cvt) + read_back(es, TsiEntryType::Fpgm),
{
    lemma_build_layout(es);
    lemma_build_items_ok(es);
    lemma_read_layout(build_items(es), TAG_TSI0);
    lemma_read_build_items(es, TAG_TSI0);
}

/// Reading back a written pair under another index tag (TSI2/TSI3) gives
/// back the glyph texts alone, in table order (empty ones left out),
/// provided every glyph id is below 0xfffa and the text part fits 32-bit
/// offsets.
pub proof fn lemma_tsi_sources_roundtrip(es: Seq<TsiEntry>, tag_index: u32)
    requires
        tag_index != TAG_TSI0,
        forall|i: int| 0 <= i < es.len() && (#[trigger] es[i]).type_0 == TsiEntryType::Glyph ==> es[i].glyph.index < 0xfffa,
        tsi_build(es).1.len() < 0x1_0000_0000,
    ensures
        entries_upto(tsi_build(es).0, tsi_build(es).1, tag_index, n_records(tsi_build(es).0))
            == read_back(es, TsiEntryType::Glyph),
{
    assert(glyph_ids_readable(es, tag_index));
    lemma_build_layout(es);
    lemma_build_items_ok(es);
    lemma_read_layout(build_items(es), tag_index);
    lemma_read_build_items(es, tag_index);
    let e = Seq::<(TsiEntryType, u16, Seq<u8>)>::empty();
    assert(read_back(es, TsiEntryType::Glyph) + e + e + e =~= read_back(es, TsiEntryType::Glyph));
}

} // verus!
