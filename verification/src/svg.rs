//! The SVG table: SVG documents for ranges of glyphs.
use vstd::prelude::*;
use crate::binio::{be16, be32, fits, lemma_u32_trunc, push_bytes, read_bytes, read_u16, read_u32};
use crate::order::{is_permutation, sort_order, sorted_by_key};
use crate::buffer::Buffer;
use crate::packet::{find_table, table_data, Packet};
use crate::tag::TAG_SVG;

verus! {

/// One SVG document and the range of glyphs it draws.
pub struct SvgAssignment {
    pub start: u16,
    pub end: u16,
    pub document: Buffer,
}

/// An SVG table: its document assignments.
pub struct SvgTable {
    pub items: Vec<SvgAssignment>,
}

// ---------------------------------------------------------------------
// Byte-level description of the table.

/// Where the document index starts.
pub open spec fn doc_index_pos(d: Seq<u8>) -> u32 {
    be32(d, 2)
}

pub open spec fn num_docs(d: Seq<u8>) -> u16 {
    be16(d, doc_index_pos(d) as int)
}

/// The header and every document index record fit.
pub open spec fn svg_ok(d: Seq<u8>) -> bool {
    &&& fits(d, 0, 10)
    &&& fits(d, doc_index_pos(d) as int, 2)
    &&& fits(d, doc_index_pos(d) + 2, 12 * num_docs(d))
}

pub open spec fn doc_record_pos(d: Seq<u8>, j: int) -> int {
    doc_index_pos(d) + 2 + 12 * j
}

/// The bytes of document `j`: empty when they run past the table.
pub open spec fn doc_bytes(d: Seq<u8>, j: int) -> Seq<u8> {
    let r = doc_record_pos(d, j);
    let start = doc_index_pos(d) + be32(d, r + 4);
    let len = be32(d, r + 8) as int;
    if start + len <= d.len() {
        d.subrange(start, start + len)
    } else {
        Seq::empty()
    }
}

/// `a` is document record `j`.
pub open spec fn assignment_matches(a: SvgAssignment, d: Seq<u8>, j: int) -> bool {
    &&& a.start == be16(d, doc_record_pos(d, j))
    &&& a.end == be16(d, doc_record_pos(d, j) + 2)
    &&& a.document@ == doc_bytes(d, j)
}

/// `t` holds every document record of the table held in `d`, in order.
pub open spec fn svg_matches(t: SvgTable, d: Seq<u8>) -> bool {
    &&& t.items@.len() == num_docs(d)
    &&& forall|j: int| 0 <= j < t.items@.len() ==> assignment_matches(#[trigger] t.items@[j], d, j)
}

// ---------------------------------------------------------------------
// Reading.

/// The documents of the SVG table held in `data`; `None` when the header or
/// the document index does not fit.
pub fn read_svg(data: &[u8]) -> (r: Option<SvgTable>)
    ensures
        match r {
            Some(t) => svg_ok(data@) && svg_matches(t, data@),
            None => !svg_ok(data@),
        },
{
    let ghost d = data@;
    let len = data.len();
    if len < 10 {
        return None;
    }
    let index_at = read_u32(data, 2).unwrap() as usize;
    let num_entries = read_u16(data, index_at)?;
    let first = index_at + 2;
    if (len - first) / 12 < num_entries as usize {
        return None;
    }
    let mut items: Vec<SvgAssignment> = Vec::with_capacity(num_entries as usize);
    let mut j: u16 = 0;
    while j < num_entries
        invariant
            j <= num_entries,
            d == data@,
            len == d.len(),
            svg_ok(d),
            index_at == doc_index_pos(d),
            first == index_at + 2,
            num_entries == num_docs(d),
            items@.len() == j,
            forall|k: int| 0 <= k < j ==> assignment_matches(#[trigger] items@[k], d, k),
        decreases num_entries - j,
    {
        let rec = first + 12 * (j as usize);
        let start = read_u16(data, rec).unwrap();
        let end = read_u16(data, rec + 2).unwrap();
        let doc_start = read_u32(data, rec + 4).unwrap() as usize;
        let doc_len = read_u32(data, rec + 8).unwrap() as usize;
        let document = if doc_start <= len - index_at && doc_len <= len - index_at - doc_start {
            let bytes = read_bytes(data, index_at + doc_start, doc_len).unwrap();
            Buffer { data: bytes }
        } else {
            Buffer::new()
        };
        items.push(SvgAssignment { start, end, document });
        j = j + 1;
    }
    Some(SvgTable { items })
}

/// The SVG table of `packet`: `None` when there is none or it is corrupted.
pub fn otfcc_read_svg(packet: &Packet) -> (r: Option<SvgTable>)
    ensures
        match table_data(packet.pieces@, TAG_SVG) {
            Some(d) => match r {
                Some(t) => svg_ok(d) && svg_matches(t, d),
                None => !svg_ok(d),
            },
            None => r is None,
        },
{
    let data = find_table(packet, TAG_SVG)?;
    read_svg(data)
}

/// The document begins as plain SVG or XML text (`<svg` with more than 4
/// bytes, or `<?xml` with more than 5).
pub open spec fn plain_format(b: Seq<u8>) -> bool {
    ||| b.len() > 4 && b[0] == 0x3c && b[1] == 0x73 && b[2] == 0x76 && b[3] == 0x67
    ||| b.len() > 5 && b[0] == 0x3c && b[1] == 0x3f && b[2] == 0x78 && b[3] == 0x6d && b[4] == 0x6c
}

/// Whether a document can be kept as text rather than encoded.
pub fn can_use_plain_format(buf: &Buffer) -> (r: bool)
    ensures
        r == plain_format(buf@),
{
    let b = &buf.data;
    (b.len() > 4 && b[0] == 0x3c && b[1] == 0x73 && b[2] == 0x76 && b[3] == 0x67)
        || (b.len() > 5 && b[0] == 0x3c && b[1] == 0x3f && b[2] == 0x78 && b[3] == 0x6d && b[4] == 0x6c)
}

/// Reading an SVG table: it is readable exactly when the 10-byte header,
/// the document count at the index offset (bytes 2-5) and the 12-byte
/// document records fit; then assignment `j` takes its first glyph from
/// bytes 0-1 of record `j`, its last glyph from bytes 2-3, and its document
/// from the offset (bytes 4-7, from the index) and length (bytes 8-11) of
/// the record, empty when they run past the table.
pub proof fn lemma_svg_read_law(t: SvgTable, d: Seq<u8>)
    ensures
        ({
            let ix = be32(d, 2) as int;
            svg_ok(d) <==> (10 <= d.len() && ix + 2 <= d.len() && ix + 2 + 12 * be16(d, ix) <= d.len())
        }),
        svg_ok(d) && svg_matches(t, d) ==> ({
            let ix = be32(d, 2) as int;
            &&& t.items@.len() == be16(d, ix)
            &&& forall|j: int| 0 <= j < t.items@.len() ==> {
                let rec = ix + 2 + 12 * j;
                let start = ix + be32(d, rec + 4);
                let len = be32(d, rec + 8) as int;
                &&& (#[trigger] t.items@[j]).start == be16(d, rec)
                &&& t.items@[j].end == be16(d, rec + 2)
                &&& t.items@[j].document@ == if start + len <= d.len() { d.subrange(start, start + len) } else { Seq::<u8>::empty() }
            }
        }),
{
    if svg_ok(d) && svg_matches(t, d) {
        assert forall|j: int| 0 <= j < t.items@.len() implies assignment_matches(#[trigger] t.items@[j], d, j) by {}
    }
}

/// A document is kept as text exactly when it begins with `<svg` and has
/// more than 4 bytes, or begins with `<?xml` and has more than 5.
pub proof fn lemma_plain_format_law(b: Seq<u8>)
    ensures
        plain_format(b) <==> ((b.len() > 4 && b.subrange(0, 4) == seq![0x3cu8, 0x73u8, 0x76u8, 0x67u8])
            || (b.len() > 5 && b.subrange(0, 5) == seq![0x3cu8, 0x3fu8, 0x78u8, 0x6du8, 0x6cu8])),
{
    if b.len() > 4 {
        let p = b.subrange(0, 4);
        let q = seq![0x3cu8, 0x73u8, 0x76u8, 0x67u8];
        if p == q {
            assert(p[0] == b[0] && p[1] == b[1] && p[2] == b[2] && p[3] == b[3]);
        }
        if b[0] == 0x3c && b[1] == 0x73 && b[2] == 0x76 && b[3] == 0x67 {
            assert(p =~= q);
        }
    }
    if b.len() > 5 {
        let p = b.subrange(0, 5);
        let q = seq![0x3cu8, 0x3fu8, 0x78u8, 0x6du8, 0x6cu8];
        if p == q {
            assert(p[0] == b[0] && p[1] == b[1] && p[2] == b[2] && p[3] == b[3] && p[4] == b[4]);
        }
        if b[0] == 0x3c && b[1] == 0x3f && b[2] == 0x78 && b[3] == 0x6d && b[4] == 0x6c {
            assert(p =~= q);
        }
    }
}

// ---------------------------------------------------------------------
// The content of a table as written.

/// A document record as written: glyph range, document, document length
/// (as written, 32 bits).
pub struct SvgDocumentRecord {
    pub start: u16,
    pub end: u16,
    pub document: Vec<u8>,
    pub length: u32,
}

/// The first glyph of every assignment of `t`.
pub open spec fn svg_starts(t: SvgTable) -> Seq<u16> {
    t.items@.map_values(|a: SvgAssignment| a.start)
}

/// `r` is the record written for assignment `a`.
pub open spec fn document_record_matches(r: SvgDocumentRecord, a: SvgAssignment) -> bool {
    &&& r.start == a.start
    &&& r.end == a.end
    &&& r.document@ == a.document@
    &&& r.length == (a.document@.len() % 0x1_0000_0000) as u32
}

/// `recs` are the document records written for `t`: one per assignment,
/// visited in an order sorted by first glyph.
pub open spec fn svg_build_result(recs: Seq<SvgDocumentRecord>, t: SvgTable) -> bool {
    exists|order: Seq<usize>| {
        &&& is_permutation(order, t.items@.len() as int)
        &&& sorted_by_key(order, svg_starts(t))
        &&& recs.len() == order.len()
        &&& forall|i: int| 0 <= i < recs.len() ==> document_record_matches(#[trigger] recs[i], t.items@[order[i] as int])
    }
}

/// The document records written for an SVG table: one per assignment, each
/// assignment used once, carrying its glyph range, its document and the
/// document's length (32 bits); they come in non-decreasing order of first
/// glyph.
pub proof fn lemma_svg_build_law(recs: Seq<SvgDocumentRecord>, t: SvgTable)
    requires
        svg_build_result(recs, t),
    ensures
        recs.len() == t.items@.len(),
        forall|i: int, j: int| 0 <= i < j < recs.len() ==> recs[i].start <= recs[j].start,
        exists|order: Seq<usize>| {
            &&& is_permutation(order, t.items@.len() as int)
            &&& forall|i: int| 0 <= i < recs.len() ==> {
                let a = t.items@[order[i] as int];
                &&& (#[trigger] recs[i]).start == a.start
                &&& recs[i].end == a.end
                &&& recs[i].document@ == a.document@
                &&& recs[i].length == (a.document@.len() % 0x1_0000_0000) as u32
            }
        },
{
    let order = choose|order: Seq<usize>| {
        &&& is_permutation(order, t.items@.len() as int)
        &&& sorted_by_key(order, svg_starts(t))
        &&& recs.len() == order.len()
        &&& forall|i: int| 0 <= i < recs.len() ==> document_record_matches(#[trigger] recs[i], t.items@[order[i] as int])
    };
    assert forall|i: int, j: int| 0 <= i < j < recs.len() implies recs[i].start <= recs[j].start by {
        assert(document_record_matches(recs[i], t.items@[order[i] as int]));
        assert(document_record_matches(recs[j], t.items@[order[j] as int]));
        assert(svg_starts(t)[order[i] as int] == t.items@[order[i] as int].start);
        assert(svg_starts(t)[order[j] as int] == t.items@[order[j] as int].start);
    }
    assert forall|i: int| 0 <= i < recs.len() implies {
        let a = t.items@[order[i] as int];
        &&& (#[trigger] recs[i]).start == a.start
        &&& recs[i].end == a.end
        &&& recs[i].document@ == a.document@
        &&& recs[i].length == (a.document@.len() % 0x1_0000_0000) as u32
    } by {
        assert(document_record_matches(recs[i], t.items@[order[i] as int]));
    }
}

/// The document records written for `svg`, ordered by first glyph;
/// nothing for a table without documents.
pub fn otfcc_build_svg(svg: &SvgTable) -> (r: Option<Vec<SvgDocumentRecord>>)
    ensures
        match r {
            None => svg.items@.len() == 0,
            Some(recs) => svg.items@.len() > 0 && svg_build_result(recs@, *svg),
        },
        r matches Some(recs) ==> forall|i: int, j: int| 0 <= i < j < recs@.len() ==> recs@[i].start <= recs@[j].start,
{
    if svg.items.len() == 0 {
        return None;
    }
    let mut starts: Vec<u16> = Vec::with_capacity(svg.items.len());
    let mut i: usize = 0;
    while i < svg.items.len()
        invariant
            i <= svg.items@.len(),
            starts@ =~= svg_starts(*svg).subrange(0, i as int),
        decreases svg.items@.len() - i,
    {
        starts.push(svg.items[i].start);
        i = i + 1;
    }
    assert(starts@ =~= svg_starts(*svg));
    let order = sort_order(&starts);
    let mut recs: Vec<SvgDocumentRecord> = Vec::with_capacity(order.len());
    let mut q: usize = 0;
    while q < order.len()
        invariant
            q <= order@.len(),
            is_permutation(order@, svg.items@.len() as int),
            recs@.len() == q,
            forall|k: int| 0 <= k < q ==> document_record_matches(#[trigger] recs@[k], svg.items@[order@[k] as int]),
        decreases order@.len() - q,
    {
        let a = &svg.items[order[q]];
        let mut document: Vec<u8> = Vec::with_capacity(a.document.data.len());
        push_bytes(&mut document, a.document.data.as_slice());
        let length = #[verifier::truncate] (a.document.data.len() as u32);
        proof {
            lemma_u32_trunc(a.document.data@.len() as usize);
        }
        recs.push(SvgDocumentRecord { start: a.start, end: a.end, document, length });
        q = q + 1;
    }
    proof {
        assert(svg_build_result(recs@, *svg));
        lemma_svg_build_law(recs@, *svg);
    }
    Some(recs)
}

} // verus!
