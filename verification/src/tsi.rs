//! The TSI0/TSI1 (glyph programs) and TSI2/TSI3 (glyph sources) tables:
//! an index of (glyph, length, offset) records into a text part.
use vstd::prelude::*;
use crate::binio::{push_bytes, lemma_u32_trunc, add_pos, be16, be16_bytes, be32, be32_bytes, fits, read_bytes, read_u16, read_u32};
use crate::buffer::Buffer;
use crate::handle::{HandleState, otfcc_handle_dup, same_handle, handle_from_index, is_empty_handle, is_index_handle, otfcc_handle_empty, GlyphHandle};
use crate::packet::{find_table, table_data, Packet};
use crate::tag::TAG_TSI0;

verus! {

/// What an index record describes: a glyph's text, or one of the
/// font-wide programs.
#[derive(Copy, Clone, PartialEq, Eq, Structural, Debug)]
pub enum TsiEntryType {
    Glyph,
    Fpgm,
    Prep,
    Cvt,
    ReservedFffc,
}

/// One text of the table, with the glyph it belongs to (for `Glyph`).
#[derive(Clone, Debug)]
pub struct TsiEntry {
    pub type_0: TsiEntryType,
    pub glyph: GlyphHandle,
    pub content: Vec<u8>,
}

pub type TsiTable = Vec<TsiEntry>;

/// An independent copy of `e`.
pub fn tsi_entry_dup(e: &TsiEntry) -> (r: TsiEntry)
    ensures
        r.type_0 == e.type_0,
        same_handle(r.glyph, e.glyph),
        r.content@ == e.content@,
{
    let glyph = otfcc_handle_dup(&e.glyph);
    let mut content: Vec<u8> = Vec::with_capacity(e.content.len());
    push_bytes(&mut content, e.content.as_slice());
    TsiEntry { type_0: e.type_0, glyph, content }
}

/// The two parts a table is written to: index records and texts.
pub struct TsiBuildTarget {
    pub index_part: Option<Buffer>,
    pub text_part: Option<Buffer>,
}

/// One 8-byte index record.
pub struct TsiIndexEntry {
    pub gid: u16,
    pub text_length: u32,
    pub text_offset: u32,
}

// ---------------------------------------------------------------------
// Byte-level description of the index part.

/// The number of whole 8-byte records of the index part.
pub open spec fn n_records(idx: Seq<u8>) -> int {
    idx.len() as int / 8
}

pub open spec fn rec_gid(idx: Seq<u8>, j: int) -> u16 {
    be16(idx, 8 * j)
}

pub open spec fn rec_len(idx: Seq<u8>, j: int) -> u16 {
    be16(idx, 8 * j + 2)
}

pub open spec fn rec_off(idx: Seq<u8>, j: int) -> u32 {
    be32(idx, 8 * j + 4)
}

/// A glyph id that stands for a text of the table (and not for a marker
/// record) under the index tag `tag_index`.
pub open spec fn valid_gid(gid: u16, tag_index: u32) -> bool {
    if tag_index == TAG_TSI0 {
        gid != 0xfffe && gid != 0xfffc
    } else {
        gid < 0xfffa
    }
}

/// The length of the text of record `j` predicted from the first later
/// record `k` (searched from `k` on) that is not a marker and starts
/// inside the text part, after record `j`'s text; the rest of the text
/// part when there is none.
pub open spec fn predicted(idx: Seq<u8>, tl: u32, j: int, k: int) -> int
    decreases n_records(idx) - k,
{
    if k < 0 || k >= n_records(idx) {
        tl - rec_off(idx, j)
    } else if rec_gid(idx, k) != 0xfffe && rec_off(idx, k) < tl && rec_off(idx, k) > rec_off(idx, j) {
        rec_off(idx, k) - rec_off(idx, j)
    } else {
        predicted(idx, tl, j, k + 1)
    }
}

/// The length of the text of record `j`: its declared length, or the
/// predicted one when the declared length is the sentinel (>= 0x8000).
pub open spec fn text_length(idx: Seq<u8>, tl: u32, j: int) -> int {
    if rec_len(idx, j) >= 0x8000 {
        predicted(idx, tl, j, j + 1)
    } else {
        rec_len(idx, j) as int
    }
}

/// The entry type that a glyph id stands for.
pub open spec fn type_of_gid(gid: u16) -> TsiEntryType {
    if gid == 65530 {
        TsiEntryType::Prep
    } else if gid == 65531 {
        TsiEntryType::Cvt
    } else if gid == 65533 {
        TsiEntryType::Fpgm
    } else {
        TsiEntryType::Glyph
    }
}

/// The entry record `j` yields -- its type, glyph id and text -- or
/// nothing when it is a marker, starts past the text part, is empty, or
/// runs past the end of the text part.  (`tl` is the text part's length
/// as a 32-bit number.)
pub open spec fn record_entry(idx: Seq<u8>, text: Seq<u8>, tag_index: u32, j: int) -> Option<(TsiEntryType, u16, Seq<u8>)> {
    let tl = text.len() as u32;
    let off = rec_off(idx, j) as int;
    let len = text_length(idx, tl, j);
    if valid_gid(rec_gid(idx, j), tag_index) && rec_off(idx, j) < tl && rec_len(idx, j) != 0
        && off + len <= text.len() {
        Some((type_of_gid(rec_gid(idx, j)), rec_gid(idx, j), text.subrange(off, off + len)))
    } else {
        None
    }
}

/// The entries of the first `n` records, in order.
pub open spec fn entries_upto(idx: Seq<u8>, text: Seq<u8>, tag_index: u32, n: int) -> Seq<(TsiEntryType, u16, Seq<u8>)>
    decreases n,
{
    if n <= 0 {
        Seq::empty()
    } else {
        let prev = entries_upto(idx, text, tag_index, n - 1);
        match record_entry(idx, text, tag_index, n - 1) {
            Some(e) => prev.push(e),
            None => prev,
        }
    }
}

/// `e` holds the entry described by `v`: a glyph entry refers to its glyph
/// by index, the other entries refer to no glyph.
pub open spec fn entry_matches(e: TsiEntry, v: (TsiEntryType, u16, Seq<u8>)) -> bool {
    &&& e.type_0 == v.0
    &&& e.content@ == v.2
    &&& if v.0 == TsiEntryType::Glyph {
        is_index_handle(e.glyph, v.1)
    } else {
        is_empty_handle(e.glyph)
    }
}

/// `r` is what reading the index part `idx` against the text part `text`
/// gives: one entry per usable record, in record order.
pub open spec fn tsi_read_matches(r: Seq<TsiEntry>, idx: Seq<u8>, text: Seq<u8>, tag_index: u32) -> bool {
    let es = entries_upto(idx, text, tag_index, n_records(idx));
    &&& r.len() == es.len()
    &&& forall|i: int| 0 <= i < r.len() ==> entry_matches(#[trigger] r[i], es[i])
}

/// Index record `m` is not a marker and starts inside a text part of
/// `tl` bytes, after offset `off`.
pub open spec fn starts_after(idx: Seq<u8>, tl: u32, off: u32, m: int) -> bool {
    be16(idx, 8 * m) != 0xfffe && be32(idx, 8 * m + 4) < tl && be32(idx, 8 * m + 4) > off
}

proof fn lemma_predicted_from(idx: Seq<u8>, tl: u32, j: int, k: int)
    requires
        0 <= j < k,
    ensures
        ({
            let oj = be32(idx, 8 * j + 4);
            &&& (forall|m: int| k <= m < idx.len() / 8 ==> !#[trigger] starts_after(idx, tl, oj, m)) ==> predicted(idx, tl, j, k) == tl - oj
            &&& forall|m: int| k <= m < idx.len() / 8 && #[trigger] starts_after(idx, tl, oj, m)
                && (forall|q: int| k <= q < m ==> !#[trigger] starts_after(idx, tl, oj, q))
                ==> predicted(idx, tl, j, k) == be32(idx, 8 * m + 4) - oj
        }),
    decreases idx.len() / 8 - k,
{
    let oj = be32(idx, 8 * j + 4);
    assert(oj == rec_off(idx, j));
    if k < idx.len() / 8 {
        lemma_predicted_from(idx, tl, j, k + 1);
        assert(starts_after(idx, tl, oj, k) == (rec_gid(idx, k) != 0xfffe && rec_off(idx, k) < tl && rec_off(idx, k) > rec_off(idx, j)));
        if starts_after(idx, tl, oj, k) {
            assert(predicted(idx, tl, j, k) == rec_off(idx, k) - rec_off(idx, j));
        } else {
            assert(predicted(idx, tl, j, k) == predicted(idx, tl, j, k + 1));
            assert forall|m: int| k <= m < idx.len() / 8 && #[trigger] starts_after(idx, tl, oj, m)
                && (forall|q: int| k <= q < m ==> !#[trigger] starts_after(idx, tl, oj, q))
                implies predicted(idx, tl, j, k) == be32(idx, 8 * m + 4) - oj by {
                assert(m != k);
                assert forall|q: int| k + 1 <= q < m implies !#[trigger] starts_after(idx, tl, oj, q) by {}
            }
        }
    } else {
        assert(predicted(idx, tl, j, k) == tl - rec_off(idx, j));
    }
}

/// Reading index record `j` (8 bytes at 8j: glyph id, length, offset)
/// against a text part: it yields an entry exactly when the glyph id is
/// usable under the index tag (TSI0: not 0xfffe nor 0xfffc; otherwise
/// below 0xfffa), the offset lies inside the text part, the length is not
/// 0, and the text fits; the entry's type is prep for 0xfffa, cvt for
/// 0xfffb, fpgm for 0xfffd and glyph otherwise, and its text starts at the
/// offset.  A length below 0x8000 is taken as it is; a larger one is the
/// distance to the offset of the first later record that is not a marker
/// (0xfffe) and starts inside the text part after this one, or to the end
/// of the text part when there is none.
pub proof fn lemma_tsi_record_law(idx: Seq<u8>, text: Seq<u8>, tag_index: u32, j: int)
    requires
        0 <= j < idx.len() / 8,
    ensures
        ({
            let tl = text.len() as u32;
            let gid = be16(idx, 8 * j);
            let declared = be16(idx, 8 * j + 2);
            let off = be32(idx, 8 * j + 4);
            let usable = if tag_index == TAG_TSI0 { gid != 0xfffe && gid != 0xfffc } else { gid < 0xfffa };
            let ty = if gid == 0xfffa { TsiEntryType::Prep } else if gid == 0xfffb { TsiEntryType::Cvt }
                else if gid == 0xfffd { TsiEntryType::Fpgm } else { TsiEntryType::Glyph };
            let len = text_length(idx, tl, j);
            &&& declared < 0x8000 ==> len == declared
            &&& declared >= 0x8000 && (forall|m: int| j < m < idx.len() / 8 ==> !#[trigger] starts_after(idx, tl, off, m)) ==> len == tl - off
            &&& forall|m: int| declared >= 0x8000 && j < m < idx.len() / 8 && #[trigger] starts_after(idx, tl, off, m)
                && (forall|q: int| j < q < m ==> !#[trigger] starts_after(idx, tl, off, q))
                ==> len == be32(idx, 8 * m + 4) - off
            &&& record_entry(idx, text, tag_index, j) == if usable && off < tl && declared != 0 && off + len <= text.len() {
                Some((ty, gid, text.subrange(off as int, off + len)))
            } else {
                None::<(TsiEntryType, u16, Seq<u8>)>
            }
        }),
{
    lemma_predicted_from(idx, text.len() as u32, j, j + 1);
}

/// An entry read for (type, glyph id, text) has that type and text, and
/// refers to its glyph by index for a glyph text, to no glyph otherwise.
pub proof fn lemma_tsi_entry_law(e: TsiEntry, v: (TsiEntryType, u16, Seq<u8>))
    requires
        entry_matches(e, v),
    ensures
        e.type_0 == v.0,
        e.content@ == v.2,
        v.0 == TsiEntryType::Glyph ==> e.glyph.state == HandleState::Index && e.glyph.index == v.1,
        v.0 != TsiEntryType::Glyph ==> e.glyph.state == HandleState::Empty,
{
}

// ---------------------------------------------------------------------
// Reading.

/// Whether `gid` stands for a text under the index tag `tag_index`.
pub fn is_valid_gid(gid: u16, tag_index: u32) -> (r: bool)
    ensures
        r == valid_gid(gid, tag_index),
{
    if tag_index == TAG_TSI0 {
        gid != 0xfffe && gid != 0xfffc
    } else {
        gid < 0xfffa
    }
}

/// The `idx`-th 8-byte record of the index part, when all 8 bytes are there.
pub fn read_tsi_index_entry(index_data: &[u8], idx: usize) -> (r: Option<TsiIndexEntry>)
    ensures
        match r {
            Some(e) => fits(index_data@, 8 * idx, 8) && e.gid == rec_gid(index_data@, idx as int)
                && e.text_length == rec_len(index_data@, idx as int)
                && e.text_offset == rec_off(index_data@, idx as int),
            None => !fits(index_data@, 8 * idx, 8),
        },
{
    let dlen = index_data.len();
    if idx > dlen / 8 {
        return None;
    }
    let p = idx * 8;
    if dlen - p < 8 {
        return None;
    }
    let gid = read_u16(index_data, p).unwrap();
    let text_length = read_u16(index_data, p + 2).unwrap();
    let text_offset = read_u32(index_data, p + 4).unwrap();
    Some(TsiIndexEntry { gid, text_length: text_length as u32, text_offset })
}

/// The predicted text length of record `j` (see `predicted`).
fn predict_text_length(index_data: &[u8], text_len: u32, j: usize, text_offset: u32) -> (r: u32)
    requires
        fits(index_data@, 8 * j, 8),
        text_offset == rec_off(index_data@, j as int),
        text_offset < text_len,
    ensures
        r == predicted(index_data@, text_len, j as int, j + 1),
{
    let ghost d = index_data@;
    let n = index_data.len() / 8;
    let mut k: usize = j + 1;
    while k < n
        invariant
            j < k <= n,
            n == n_records(d),
            d == index_data@,
            text_offset == rec_off(d, j as int),
            text_offset < text_len,
            predicted(d, text_len, j as int, j + 1) == predicted(d, text_len, j as int, k as int),
        decreases n - k,
    {
        let e = read_tsi_index_entry(index_data, k).unwrap();
        if e.gid != 0xfffe && e.text_offset < text_len && e.text_offset > text_offset {
            return e.text_offset - text_offset;
        }
        k = k + 1;
    }
    text_len - text_offset
}

/// The entries of a TSI0/TSI1 (or TSI2/TSI3) pair: `None` when either part
/// is missing; otherwise one entry per usable index record, in order.
pub fn otfcc_read_tsi(packet: &Packet, tag_index: u32, tag_text: u32) -> (r: Option<TsiTable>)
    ensures
        match (table_data(packet.pieces@, tag_index), table_data(packet.pieces@, tag_text)) {
            (Some(idx), Some(text)) => r matches Some(t) && tsi_read_matches(t@, idx, text, tag_index),
            _ => r is None,
        },
{
    let index_data = find_table(packet, tag_index)?;
    let text = find_table(packet, tag_text)?;
    let ghost idx = index_data@;
    let ghost tx = text@;
    let text_len = text.len() as u32;
    let n = index_data.len() / 8;
    let mut tsi: TsiTable = Vec::new();
    let mut j: usize = 0;
    while j < n
        invariant
            j <= n,
            n == n_records(idx),
            idx == index_data@,
            tx == text@,
            text_len == tx.len() as u32,
            tsi@.len() == entries_upto(idx, tx, tag_index, j as int).len(),
            forall|i: int| 0 <= i < tsi@.len() ==> entry_matches(#[trigger] tsi@[i], entries_upto(idx, tx, tag_index, j as int)[i]),
        decreases n - j,
    {
        let entry = read_tsi_index_entry(index_data, j).unwrap();
        let ghost prev = entries_upto(idx, tx, tag_index, j as int);
        assert(entries_upto(idx, tx, tag_index, j + 1) == match record_entry(idx, tx, tag_index, j as int) {
            Some(e) => prev.push(e),
            None => prev,
        });
        if is_valid_gid(entry.gid, tag_index) && entry.text_offset < text_len && entry.text_length != 0 {
            let length = if entry.text_length >= 0x8000 {
                predict_text_length(index_data, text_len, j, entry.text_offset)
            } else {
                entry.text_length
            };
            assert(length == text_length(idx, text_len, j as int));
            match read_bytes(text, entry.text_offset as usize, length as usize) {
                Some(content) => {
                    let glyph = if entry.gid == 65530 || entry.gid == 65531 || entry.gid == 65533 {
                        otfcc_handle_empty()
                    } else {
                        handle_from_index(entry.gid)
                    };
                    let type_0 = if entry.gid == 65530 {
                        TsiEntryType::Prep
                    } else if entry.gid == 65531 {
                        TsiEntryType::Cvt
                    } else if entry.gid == 65533 {
                        TsiEntryType::Fpgm
                    } else {
                        TsiEntryType::Glyph
                    };
                    let e = TsiEntry { type_0, glyph, content };
                    let ghost v = record_entry(idx, tx, tag_index, j as int).unwrap();
                    assert(entry_matches(e, v));
                    tsi.push(e);
                    assert(entries_upto(idx, tx, tag_index, j + 1) == prev.push(v));
                },
                None => {},
            }
        }
        j = j + 1;
    }
    Some(tsi)
}


// ---------------------------------------------------------------------
// Writing.

/// The glyph id written for an entry of type `ty`.
pub open spec fn proper_gid(e: TsiEntry, ty: TsiEntryType) -> u16 {
    match ty {
        TsiEntryType::Cvt => 0xfffb,
        TsiEntryType::Fpgm => 0xfffd,
        TsiEntryType::Prep => 0xfffa,
        TsiEntryType::ReservedFffc => 0xfffc,
        TsiEntryType::Glyph => e.glyph.index,
    }
}

/// The glyph id written for a padding record of type `ty` (padding is
/// never written for glyphs).
pub open spec fn pad_gid(ty: TsiEntryType) -> u16 {
    match ty {
        TsiEntryType::Cvt => 0xfffb,
        TsiEntryType::Fpgm => 0xfffd,
        TsiEntryType::Prep => 0xfffa,
        TsiEntryType::ReservedFffc => 0xfffc,
        TsiEntryType::Glyph => 0,
    }
}

/// An 8-byte index record.
pub open spec fn index_record(gid: u16, len: u16, off: u32) -> Seq<u8> {
    be16_bytes(gid) + be16_bytes(len) + be32_bytes(off)
}

/// The length field written for a text of `n` bytes: the length itself,
/// or the sentinel 0x8000 when it does not fit below it.
pub open spec fn len_field(n: int) -> u16 {
    if n < 0x8000 {
        n as u16
    } else {
        0x8000
    }
}

/// A text position as written in a 32-bit offset field.
pub open spec fn off_field(p: int) -> u32 {
    (p % 0x1_0000_0000) as u32
}

/// The index records and texts written for the entries of `es` of type
/// `ty`, when `p0` bytes of text precede them.
pub open spec fn group(es: Seq<TsiEntry>, ty: TsiEntryType, p0: int) -> (Seq<u8>, Seq<u8>)
    decreases es.len(),
{
    if es.len() == 0 {
        (Seq::empty(), Seq::empty())
    } else {
        let prev = group(es.drop_last(), ty, p0);
        let e = es.last();
        if e.type_0 != ty {
            prev
        } else {
            (
                prev.0 + index_record(proper_gid(e, ty), len_field(e.content@.len() as int), off_field(p0 + prev.1.len())),
                prev.1 + e.content@,
            )
        }
    }
}

/// How many entries of `es` have type `ty`.
pub open spec fn group_count(es: Seq<TsiEntry>, ty: TsiEntryType) -> nat
    decreases es.len(),
{
    if es.len() == 0 {
        0
    } else if es.last().type_0 == ty {
        group_count(es.drop_last(), ty) + 1
    } else {
        group_count(es.drop_last(), ty)
    }
}

/// `n` empty padding records of type `ty`, all pointing at text position `pos`.
pub open spec fn pad(ty: TsiEntryType, n: nat, pos: int) -> Seq<u8>
    decreases n,
{
    if n == 0 {
        Seq::empty()
    } else {
        pad(ty, (n - 1) as nat, pos) + index_record(pad_gid(ty), 0, off_field(pos))
    }
}

/// How many padding records follow `count` written records (the running
/// count is a 16-bit number) so that at least `min_n` are written.
pub open spec fn n_pad(count: nat, min_n: u16) -> nat {
    let c = count % 65536;
    if c < min_n {
        (min_n - c) as nat
    } else {
        0
    }
}

/// The index records and texts written for type `ty` with at least
/// `min_n` records, when `p0` bytes of text precede them.
pub open spec fn group_padded(es: Seq<TsiEntry>, ty: TsiEntryType, min_n: u16, p0: int) -> (Seq<u8>, Seq<u8>) {
    let g = group(es, ty, p0);
    (g.0 + pad(ty, n_pad(group_count(es, ty), min_n), p0 + g.1.len()), g.1)
}

/// The marker record written between the glyph records and the others.
pub open spec fn marker_record() -> Seq<u8> {
    index_record(0xfffe, 0, 0xabfc1f34)
}

/// The index part and the text part written for `es`: glyph texts, the
/// marker, then prep, cvt, reserved and fpgm texts (one record at least
/// for each of the last four).
pub open spec fn tsi_build(es: Seq<TsiEntry>) -> (Seq<u8>, Seq<u8>) {
    let g1 = group_padded(es, TsiEntryType::Glyph, 0, 0);
    let t1 = g1.1.len() as int;
    let g2 = group_padded(es, TsiEntryType::Prep, 1, t1);
    let t2 = t1 + g2.1.len();
    let g3 = group_padded(es, TsiEntryType::Cvt, 1, t2);
    let t3 = t2 + g3.1.len();
    let g4 = group_padded(es, TsiEntryType::ReservedFffc, 1, t3);
    let t4 = t3 + g4.1.len();
    let g5 = group_padded(es, TsiEntryType::Fpgm, 1, t4);
    (
        g1.0 + marker_record() + g2.0 + g3.0 + g4.0 + g5.0,
        g1.1 + g2.1 + g3.1 + g4.1 + g5.1,
    )
}

/// The glyph id written for `entry` of type `type_0`; the entry is only
/// consulted for glyphs.
pub fn propergid(entry: Option<&TsiEntry>, type_0: TsiEntryType) -> (r: u16)
    requires
        type_0 == TsiEntryType::Glyph ==> entry is Some,
    ensures
        match entry {
            Some(e) => r == proper_gid(*e, type_0),
            None => r == pad_gid(type_0),
        },
{
    match type_0 {
        TsiEntryType::Cvt => 0xfffb,
        TsiEntryType::Fpgm => 0xfffd,
        TsiEntryType::Prep => 0xfffa,
        TsiEntryType::ReservedFffc => 0xfffc,
        TsiEntryType::Glyph => entry.unwrap().glyph.index,
    }
}

proof fn lemma_group_step(es: Seq<TsiEntry>, i: int, ty: TsiEntryType, p0: int)
    requires
        0 <= i < es.len(),
    ensures
        ({
            let prev = group(es.subrange(0, i), ty, p0);
            let e = es[i];
            group(es.subrange(0, i + 1), ty, p0) == if e.type_0 != ty {
                prev
            } else {
                (
                    prev.0 + index_record(proper_gid(e, ty), len_field(e.content@.len() as int), off_field(p0 + prev.1.len())),
                    prev.1 + e.content@,
                )
            }
        }),
        group_count(es.subrange(0, i + 1), ty) == group_count(es.subrange(0, i), ty) + (if es[i].type_0 == ty { 1nat } else { 0nat }),
{
    assert(es.subrange(0, i + 1).drop_last() =~= es.subrange(0, i));
    assert(es.subrange(0, i + 1).last() == es[i]);
}

proof fn lemma_mod_succ(c: nat)
    ensures
        (c + 1) % 65536 == if c % 65536 == 65535 { 0 } else { c % 65536 + 1 },
{
}

#[verifier::spinoff_prover]
#[verifier::rlimit(40)]
fn push_group(index: &mut Buffer, text: &mut Buffer, tsi: &TsiTable, type_0: TsiEntryType, min_n: u16)
    requires
        type_0 == TsiEntryType::Glyph ==> min_n == 0,
    ensures
        final(index)@ == old(index)@ + group_padded(tsi@, type_0, min_n, old(text)@.len() as int).0,
        final(text)@ == old(text)@ + group_padded(tsi@, type_0, min_n, old(text)@.len() as int).1,
{
    let ghost p0 = text@.len() as int;
    let ghost idx0 = index@;
    let ghost txt0 = text@;
    let mut items_pushed: u16 = 0;
    let mut i: usize = 0;
    assert(tsi@.subrange(0, 0) =~= Seq::<TsiEntry>::empty());
    while i < tsi.len()
        invariant
            i <= tsi@.len(),
            index@ == idx0 + group(tsi@.subrange(0, i as int), type_0, p0).0,
            text@ == txt0 + group(tsi@.subrange(0, i as int), type_0, p0).1,
            items_pushed == group_count(tsi@.subrange(0, i as int), type_0) % 65536,
            p0 == txt0.len(),
        decreases tsi@.len() - i,
    {
        let entry = &tsi[i];
        proof {
            lemma_group_step(tsi@, i as int, type_0, p0);
        }
        if entry.type_0 == type_0 {
            let length_sofar = text.pos();
            text.write_bytes(entry.content.as_slice());
            let length_after = text.pos();
            index.write_u16be(propergid(Some(entry), type_0));
            if length_after - length_sofar < 0x8000 {
                index.write_u16be((length_after - length_sofar) as u16);
            } else {
                index.write_u16be(0x8000);
            }
            index.write_u32be(length_sofar as u32);
            proof {
                lemma_mod_succ(group_count(tsi@.subrange(0, i as int), type_0));
            }
            items_pushed = items_pushed.wrapping_add(1);
            proof {
                let prev = group(tsi@.subrange(0, i as int), type_0, p0);
                assert(length_sofar == p0 + prev.1.len());
                lemma_u32_trunc(length_sofar);
                assert(index@ =~= idx0 + group(tsi@.subrange(0, i + 1), type_0, p0).0);
                assert(text@ =~= txt0 + group(tsi@.subrange(0, i + 1), type_0, p0).1);
            }
        }
        i = i + 1;
    }
    assert(tsi@.subrange(0, tsi@.len() as int) =~= tsi@);
    let ghost g = group(tsi@, type_0, p0);
    let ghost count = group_count(tsi@, type_0);
    let ghost pos = p0 + g.1.len();
    let ghost idx1 = index@;
    let mut k: u16 = 0;
    while items_pushed < min_n
        invariant
            items_pushed as int == (count % 65536) + k,
            items_pushed <= min_n || k == 0,
            index@ == idx1 + pad(type_0, k as nat, pos),
            text@.len() == pos,
            type_0 == TsiEntryType::Glyph ==> min_n == 0,
        decreases min_n - items_pushed,
    {
        let text_pos = text.pos();
        index.write_u16be(propergid(None, type_0));
        index.write_u16be(0);
        index.write_u32be(text_pos as u32);
        proof {
            lemma_u32_trunc(text_pos);
        }
        items_pushed = items_pushed + 1;
        k = k + 1;
        assert(index@ =~= idx1 + pad(type_0, k as nat, pos));
    }
    assert(k == n_pad(count, min_n));
}

/// Appends to `target` the index records and texts of every entry of
/// type `type_0`, then empty records until at least `min_n` were written.
pub fn push_tsi_entries(target: &mut TsiBuildTarget, tsi: &TsiTable, type_0: TsiEntryType, min_n: u16)
    requires
        old(target).index_part is Some,
        old(target).text_part is Some,
        type_0 == TsiEntryType::Glyph ==> min_n == 0,
    ensures
        final(target).index_part matches Some(b) && b@ == old(target).index_part.unwrap()@
            + group_padded(tsi@, type_0, min_n, old(target).text_part.unwrap()@.len() as int).0,
        final(target).text_part matches Some(b) && b@ == old(target).text_part.unwrap()@
            + group_padded(tsi@, type_0, min_n, old(target).text_part.unwrap()@.len() as int).1,
{
    let mut index = target.index_part.take().unwrap();
    let mut text = target.text_part.take().unwrap();
    push_group(&mut index, &mut text, tsi, type_0, min_n);
    target.index_part = Some(index);
    target.text_part = Some(text);
}

/// Writes a table: no parts for no table; otherwise the index part and the
/// text part described by `tsi_build`.
pub fn otfcc_build_tsi(tsi: Option<&TsiTable>) -> (r: TsiBuildTarget)
    ensures
        match tsi {
            None => r.index_part is None && r.text_part is None,
            Some(t) => r.index_part matches Some(i) && r.text_part matches Some(x)
                && i@ == tsi_build(t@).0 && x@ == tsi_build(t@).1,
        },
{
    let tsi = match tsi {
        Some(t) => t,
        None => return TsiBuildTarget { index_part: None, text_part: None },
    };
    let mut index = Buffer::new();
    let mut text = Buffer::new();
    push_group(&mut index, &mut text, tsi, TsiEntryType::Glyph, 0);
    index.write_u16be(0xfffe);
    index.write_u16be(0);
    index.write_u32be(0xabfc1f34);
    push_group(&mut index, &mut text, tsi, TsiEntryType::Prep, 1);
    push_group(&mut index, &mut text, tsi, TsiEntryType::Cvt, 1);
    push_group(&mut index, &mut text, tsi, TsiEntryType::ReservedFffc, 1);
    push_group(&mut index, &mut text, tsi, TsiEntryType::Fpgm, 1);
    proof {
        let es = tsi@;
        let g1 = group_padded(es, TsiEntryType::Glyph, 0, 0);
        let t1 = g1.1.len() as int;
        let g2 = group_padded(es, TsiEntryType::Prep, 1, t1);
        let t2 = t1 + g2.1.len();
        let g3 = group_padded(es, TsiEntryType::Cvt, 1, t2);
        let t3 = t2 + g3.1.len();
        let g4 = group_padded(es, TsiEntryType::ReservedFffc, 1, t3);
        let t4 = t3 + g4.1.len();
        let g5 = group_padded(es, TsiEntryType::Fpgm, 1, t4);
        assert(index@ =~= g1.0 + marker_record() + g2.0 + g3.0 + g4.0 + g5.0);
        assert(text@ =~= g1.1 + g2.1 + g3.1 + g4.1 + g5.1);
    }
    TsiBuildTarget { index_part: Some(index), text_part: Some(text) }
}

} // verus!
