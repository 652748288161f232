//! The TSI5 table: the glyph class of every glyph, as stored by the
//! hinting tools (one 16-bit class per glyph id).
use vstd::prelude::*;
use crate::binio::{be16, be16_bytes, fits, lemma_be16_roundtrip, read_u16};
use crate::buffer::Buffer;
use crate::handle::{handle_from_index, is_index_handle, GlyphHandle};
use crate::packet::{find_table, table_data, Packet};
use crate::tag::TAG_TSI5;

verus! {

/// Glyphs with their classes, pairwise.
pub struct ClassDef {
    pub glyphs: Vec<GlyphHandle>,
    pub classes: Vec<u16>,
}

pub type table_TSI5 = ClassDef;

/// The number of whole 2-byte records of the table.
pub open spec fn tsi5_count(d: Seq<u8>) -> int {
    d.len() as int / 2
}

/// `t` assigns glyph `j` the class stored in record `j`, for every record.
pub open spec fn tsi5_matches(t: ClassDef, d: Seq<u8>) -> bool {
    &&& t.glyphs@.len() == tsi5_count(d)
    &&& t.classes@.len() == tsi5_count(d)
    &&& forall|j: int| 0 <= j < tsi5_count(d) ==> is_index_handle(#[trigger] t.glyphs@[j], j as u16)
    &&& forall|j: int| 0 <= j < tsi5_count(d) ==> #[trigger] t.classes@[j] == be16(d, 2 * j)
}

/// The class glyph `g` ends up with after the first `n` pairs of a class
/// definition: the class of the last pair naming it, or 0.
pub open spec fn class_of(glyphs: Seq<GlyphHandle>, classes: Seq<u16>, n: int, g: int) -> u16
    decreases n,
{
    if n <= 0 {
        0
    } else if glyphs[n - 1].index == g {
        classes[n - 1]
    } else {
        class_of(glyphs, classes, n - 1, g)
    }
}

/// The bytes written for the first `k` of `num_glyphs` glyphs: each
/// glyph's class as a big-endian word.
pub open spec fn tsi5_bytes_upto(t: ClassDef, k: int) -> Seq<u8>
    decreases k,
{
    if k <= 0 {
        Seq::empty()
    } else {
        tsi5_bytes_upto(t, k - 1) + be16_bytes(class_of(t.glyphs@, t.classes@, t.glyphs@.len() as int, k - 1))
    }
}

/// The class assignment of the TSI5 table held in `data`: glyph `j` gets
/// the class of record `j`; a trailing odd byte is no record.  The table
/// may hold at most 0x1fffe bytes: the 16-bit glyph counter of the reader
/// never gets past a longer one.
pub fn read_tsi5(data: &[u8]) -> (r: ClassDef)
    requires
        data@.len() <= 0x1fffe,
    ensures
        tsi5_matches(r, data@),
{
    let n = data.len() / 2;
    let mut glyphs: Vec<GlyphHandle> = Vec::with_capacity(n);
    let mut classes: Vec<u16> = Vec::with_capacity(n);
    let mut j: usize = 0;
    while j < n
        invariant
            j <= n,
            n == tsi5_count(data@),
            n <= 0x10000,
            glyphs@.len() == j,
            classes@.len() == j,
            forall|k: int| 0 <= k < j ==> is_index_handle(#[trigger] glyphs@[k], k as u16),
            forall|k: int| 0 <= k < j ==> #[trigger] classes@[k] == be16(data@, 2 * k),
        decreases n - j,
    {
        glyphs.push(handle_from_index(j as u16));
        classes.push(read_u16(data, 2 * j).unwrap());
        j = j + 1;
    }
    ClassDef { glyphs, classes }
}

/// The TSI5 table of `packet`, when it has one.
pub fn otfcc_readTSI5(packet: &Packet) -> (r: Option<ClassDef>)
    requires
        table_data(packet.pieces@, TAG_TSI5) matches Some(d) ==> d.len() <= 0x1fffe,
    ensures
        match table_data(packet.pieces@, TAG_TSI5) {
            Some(d) => r matches Some(t) && tsi5_matches(t, d),
            None => r is None,
        },
{
    let data = find_table(packet, TAG_TSI5)?;
    Some(read_tsi5(data))
}

/// Writes `tsi5` for a font of `numGlyphs` glyphs: one class word per glyph
/// id (0 for glyphs the table does not name; the last pair wins for a
/// glyph named twice); nothing for no table.
pub fn otfcc_buildTSI5(tsi5: Option<&ClassDef>, numGlyphs: u16) -> (r: Option<Buffer>)
    requires
        tsi5 matches Some(t) ==> t.glyphs@.len() <= t.classes@.len(),
    ensures
        match tsi5 {
            Some(t) => r matches Some(b) && b@ == tsi5_bytes_upto(*t, numGlyphs as int),
            None => r is None,
        },
{
    let t = match tsi5 {
        Some(t) => t,
        None => return None,
    };
    let mut cls: Vec<u16> = Vec::with_capacity(numGlyphs as usize);
    let mut i: u16 = 0;
    while i < numGlyphs
        invariant
            i <= numGlyphs,
            cls@.len() == i,
            forall|g: int| 0 <= g < i ==> #[trigger] cls@[g] == 0,
        decreases numGlyphs - i,
    {
        cls.push(0);
        i = i + 1;
    }
    let mut j: usize = 0;
    while j < t.glyphs.len()
        invariant
            j <= t.glyphs@.len(),
            t.glyphs@.len() <= t.classes@.len(),
            cls@.len() == numGlyphs,
            forall|g: int| 0 <= g < numGlyphs ==> #[trigger] cls@[g] == class_of(t.glyphs@, t.classes@, j as int, g),
        decreases t.glyphs@.len() - j,
    {
        let index = t.glyphs[j].index;
        if index < numGlyphs {
            cls.set(index as usize, t.classes[j]);
        }
        j = j + 1;
    }
    let mut buf = Buffer::new();
    let mut k: u16 = 0;
    while k < numGlyphs
        invariant
            k <= numGlyphs,
            cls@.len() == numGlyphs,
            forall|g: int| 0 <= g < numGlyphs ==> #[trigger] cls@[g] == class_of(t.glyphs@, t.classes@, t.glyphs@.len() as int, g),
            buf@ == tsi5_bytes_upto(*t, k as int),
        decreases numGlyphs - k,
    {
        buf.write_u16be(cls[k as usize]);
        k = k + 1;
    }
    Some(buf)
}

proof fn lemma_class_of_read(t: ClassDef, d: Seq<u8>, n: int, g: int)
    requires
        tsi5_matches(t, d),
        0 <= g < n <= tsi5_count(d),
        tsi5_count(d) <= 0x10000,
    ensures
        class_of(t.glyphs@, t.classes@, n, g) == be16(d, 2 * g),
    decreases n,
{
    assert(is_index_handle(t.glyphs@[n - 1], (n - 1) as u16));
    if n - 1 != g {
        lemma_class_of_read(t, d, n - 1, g);
    } else {
        assert(t.classes@[g] == be16(d, 2 * g));
    }
}

proof fn lemma_bytes_upto_len(t: ClassDef, k: int)
    requires
        k >= 0,
    ensures
        tsi5_bytes_upto(t, k).len() == 2 * k,
    decreases k,
{
    if k > 0 {
        lemma_bytes_upto_len(t, k - 1);
    }
}

/// Writing back a table just read, for as many glyphs as it has records,
/// reproduces its records: every whole 2-byte record, in order.
pub proof fn lemma_tsi5_read_build(t: ClassDef, d: Seq<u8>)
    requires
        tsi5_matches(t, d),
        d.len() <= 0x20000,
    ensures
        tsi5_bytes_upto(t, tsi5_count(d)) == d.subrange(0, 2 * tsi5_count(d)),
{
    lemma_tsi5_prefix(t, d, tsi5_count(d));
}

proof fn lemma_tsi5_prefix(t: ClassDef, d: Seq<u8>, k: int)
    requires
        tsi5_matches(t, d),
        d.len() <= 0x20000,
        0 <= k <= tsi5_count(d),
    ensures
        tsi5_bytes_upto(t, k) == d.subrange(0, 2 * k),
    decreases k,
{
    if k == 0 {
        assert(d.subrange(0, 0) =~= Seq::<u8>::empty());
    } else {
        lemma_tsi5_prefix(t, d, k - 1);
        lemma_class_of_read(t, d, tsi5_count(d), k - 1);
        let w = be16(d, 2 * (k - 1));
        let pair = d.subrange(2 * (k - 1), 2 * k);
        assert(be16_bytes(w) =~= pair) by {
            assert(pair[0] == d[2 * (k - 1)]);
            assert(pair[1] == d[2 * (k - 1) + 1]);
        }
        assert(d.subrange(0, 2 * k) =~= d.subrange(0, 2 * (k - 1)) + pair);
    }
}

/// Reading a TSI5 table: glyph `j` gets the class stored as the word at
/// bytes 2j-2j+1, for every whole word of the table.
pub proof fn lemma_tsi5_read_law(t: ClassDef, d: Seq<u8>)
    requires
        tsi5_matches(t, d),
    ensures
        t.glyphs@.len() == d.len() / 2,
        t.classes@.len() == d.len() / 2,
        forall|j: int| 0 <= j < t.glyphs@.len() ==> (#[trigger] t.glyphs@[j]).index == j as u16
            && t.classes@[j] as int == d[2 * j] * 256 + d[2 * j + 1],
{
    assert forall|j: int| 0 <= j < t.glyphs@.len() implies (#[trigger] t.glyphs@[j]).index == j as u16
        && t.classes@[j] as int == d[2 * j] * 256 + d[2 * j + 1] by {
        assert(is_index_handle(t.glyphs@[j], j as u16));
        assert(t.classes@[j] == be16(d, 2 * j));
        let x = d[2 * j] as int * 256 + d[2 * j + 1] as int;
        assert(0 <= x < 0x10000);
        assert((x as u16) as int == x);
    }
}

/// The class of glyph `g` after `n` pairs: that of the last pair naming
/// `g`, or 0 when none does.
proof fn lemma_class_of_last(glyphs: Seq<GlyphHandle>, classes: Seq<u16>, n: int, g: int)
    requires
        0 <= n <= glyphs.len(),
        n <= classes.len(),
    ensures
        (forall|i: int| 0 <= i < n ==> glyphs[i].index != g) ==> class_of(glyphs, classes, n, g) == 0,
        forall|i: int| 0 <= i < n && glyphs[i].index == g && (forall|q: int| i < q < n ==> glyphs[q].index != g)
            ==> class_of(glyphs, classes, n, g) == classes[i],
    decreases n,
{
    if n > 0 {
        lemma_class_of_last(glyphs, classes, n - 1, g);
    }
}

proof fn lemma_tsi5_bytes_at(t: ClassDef, k: int, g: int)
    requires
        0 <= g < k,
    ensures
        tsi5_bytes_upto(t, k).len() == 2 * k,
        be16(tsi5_bytes_upto(t, k), 2 * g) == class_of(t.glyphs@, t.classes@, t.glyphs@.len() as int, g),
    decreases k,
{
    lemma_bytes_upto_len(t, k);
    lemma_bytes_upto_len(t, k - 1);
    let b = tsi5_bytes_upto(t, k);
    let p = tsi5_bytes_upto(t, k - 1);
    if g < k - 1 {
        lemma_tsi5_bytes_at(t, k - 1, g);
        assert(b[2 * g] == p[2 * g]);
        assert(b[2 * g + 1] == p[2 * g + 1]);
    } else {
        let c = class_of(t.glyphs@, t.classes@, t.glyphs@.len() as int, g);
        assert(b.subrange(2 * g, 2 * g + 2) =~= be16_bytes(c));
        lemma_be16_roundtrip(b, 2 * g, c);
    }
}

/// Writing a TSI5 table for `k` glyphs: `2k` bytes, glyph `g`'s word being
/// the class of the last pair naming `g`, or 0 when no pair names it.
pub proof fn lemma_tsi5_write_law(t: ClassDef, k: int)
    requires
        0 <= k,
        t.glyphs@.len() <= t.classes@.len(),
    ensures
        tsi5_bytes_upto(t, k).len() == 2 * k,
        forall|g: int| 0 <= g < k && (forall|i: int| 0 <= i < t.glyphs@.len() ==> t.glyphs@[i].index != g)
            ==> #[trigger] be16(tsi5_bytes_upto(t, k), 2 * g) == 0,
        forall|g: int, i: int| 0 <= g < k && 0 <= i < t.glyphs@.len() && #[trigger] t.glyphs@[i].index == g
            && (forall|q: int| i < q < t.glyphs@.len() ==> t.glyphs@[q].index != g)
            ==> #[trigger] be16(tsi5_bytes_upto(t, k), 2 * g) == t.classes@[i],
{
    lemma_bytes_upto_len(t, k);
    let n = t.glyphs@.len() as int;
    assert forall|g: int| 0 <= g < k && (forall|i: int| 0 <= i < t.glyphs@.len() ==> t.glyphs@[i].index != g)
        implies #[trigger] be16(tsi5_bytes_upto(t, k), 2 * g) == 0 by {
        lemma_tsi5_bytes_at(t, k, g);
        lemma_class_of_last(t.glyphs@, t.classes@, n, g);
    }
    assert forall|g: int, i: int| 0 <= g < k && 0 <= i < t.glyphs@.len() && #[trigger] t.glyphs@[i].index == g
        && (forall|q: int| i < q < t.glyphs@.len() ==> t.glyphs@[q].index != g)
        implies #[trigger] be16(tsi5_bytes_upto(t, k), 2 * g) == t.classes@[i] by {
        lemma_tsi5_bytes_at(t, k, g);
        lemma_class_of_last(t.glyphs@, t.classes@, n, g);
    }
}

} // verus!
