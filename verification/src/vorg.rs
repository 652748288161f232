//! The VORG table: vertical origins of glyphs.
use vstd::prelude::*;
use crate::binio::{be16, be16_bytes, fits, lemma_be16_roundtrip, lemma_s16_roundtrip, read_i16, read_u16, s16};
use crate::buffer::Buffer;
use crate::packet::{find_table, table_data, Packet};
use crate::tag::TAG_VORG;

verus! {

/// The vertical origin of one glyph.
#[derive(Copy, Clone, PartialEq, Eq, Structural, Debug)]
pub struct VorgEntry {
    pub gid: u16,
    pub verticalOrigin: i16,
}

/// A VORG table: the default vertical origin and the glyphs that differ.
pub struct VorgTable {
    pub numVertOriginYMetrics: u16,
    pub defaultVerticalOrigin: i16,
    pub entries: Vec<VorgEntry>,
}

/// The table's count field agrees with its entries.
pub open spec fn vorg_wf(t: VorgTable) -> bool {
    t.entries@.len() == t.numVertOriginYMetrics
}

// ---------------------------------------------------------------------
// Byte-level description of the table.

pub open spec fn vorg_count(d: Seq<u8>) -> u16 {
    be16(d, 6)
}

/// The header and every entry fit.
pub open spec fn vorg_ok(d: Seq<u8>) -> bool {
    fits(d, 0, 8) && fits(d, 8, 4 * vorg_count(d))
}

/// Entry `j` of the table held in `d`.
pub open spec fn vorg_entry_at(d: Seq<u8>, j: int) -> VorgEntry {
    VorgEntry { gid: be16(d, 8 + 4 * j), verticalOrigin: s16(be16(d, 8 + 4 * j + 2)) }
}

/// `t` holds the table held in `d`.
pub open spec fn vorg_matches(t: VorgTable, d: Seq<u8>) -> bool {
    &&& t.numVertOriginYMetrics == vorg_count(d)
    &&& t.defaultVerticalOrigin == s16(be16(d, 4))
    &&& t.entries@.len() == vorg_count(d)
    &&& forall|j: int| 0 <= j < t.entries@.len() ==> #[trigger] t.entries@[j] == vorg_entry_at(d, j)
}

/// The bytes written for the first `n` entries of `es`.
pub open spec fn vorg_entry_bytes(es: Seq<VorgEntry>, n: int) -> Seq<u8>
    decreases n,
{
    if n <= 0 {
        Seq::empty()
    } else {
        vorg_entry_bytes(es, n - 1) + be16_bytes(es[n - 1].gid) + be16_bytes(es[n - 1].verticalOrigin as u16)
    }
}

/// The bytes written for `t`: version 1.0, the default origin, the count,
/// then one (glyph, origin) pair per entry.
pub open spec fn vorg_bytes(t: VorgTable) -> Seq<u8> {
    be16_bytes(1) + be16_bytes(0) + be16_bytes(t.defaultVerticalOrigin as u16)
        + be16_bytes(t.numVertOriginYMetrics) + vorg_entry_bytes(t.entries@, t.numVertOriginYMetrics as int)
}

// ---------------------------------------------------------------------
// Reading and writing.

/// The VORG table held in `data`; `None` when the header or the entries do
/// not fit.
pub fn read_vorg(data: &[u8]) -> (r: Option<VorgTable>)
    ensures
        match r {
            Some(t) => vorg_ok(data@) && vorg_matches(t, data@) && vorg_wf(t),
            None => !vorg_ok(data@),
        },
{
    let len = data.len();
    if len < 8 {
        return None;
    }
    let n = read_u16(data, 6).unwrap();
    if (len - 8) / 4 < n as usize {
        return None;
    }
    let default_vertical_origin = read_i16(data, 4).unwrap();
    let mut entries: Vec<VorgEntry> = Vec::with_capacity(n as usize);
    let mut j: u16 = 0;
    while j < n
        invariant
            j <= n,
            len == data@.len(),
            n == vorg_count(data@),
            8 + 4 * n <= len,
            entries@.len() == j,
            forall|k: int| 0 <= k < j ==> #[trigger] entries@[k] == vorg_entry_at(data@, k),
        decreases n - j,
    {
        let p = 8 + 4 * (j as usize);
        let gid = read_u16(data, p).unwrap();
        let vertical_origin = read_i16(data, p + 2).unwrap();
        entries.push(VorgEntry { gid, verticalOrigin: vertical_origin });
        j = j + 1;
    }
    Some(VorgTable { numVertOriginYMetrics: n, defaultVerticalOrigin: default_vertical_origin, entries })
}

/// The VORG table of `packet`: `None` when there is none or it is corrupted.
pub fn otfcc_readVORG(packet: &Packet) -> (r: Option<VorgTable>)
    ensures
        match table_data(packet.pieces@, TAG_VORG) {
            Some(d) => match r {
                Some(t) => vorg_ok(d) && vorg_matches(t, d) && vorg_wf(t),
                None => !vorg_ok(d),
            },
            None => r is None,
        },
{
    let data = find_table(packet, TAG_VORG)?;
    read_vorg(data)
}

/// Writes `table`; nothing for no table.
pub fn otfcc_buildVORG(table: Option<&VorgTable>) -> (r: Option<Buffer>)
    requires
        table matches Some(t) ==> t.numVertOriginYMetrics <= t.entries@.len(),
    ensures
        match table {
            Some(t) => r matches Some(b) && b@ == vorg_bytes(*t),
            None => r is None,
        },
{
    let t = match table {
        Some(t) => t,
        None => return None,
    };
    let mut buf = Buffer::new();
    buf.write_u16be(1);
    buf.write_u16be(0);
    buf.write_u16be(t.defaultVerticalOrigin as u16);
    buf.write_u16be(t.numVertOriginYMetrics);
    let ghost head = buf@;
    let mut j: u16 = 0;
    while j < t.numVertOriginYMetrics
        invariant
            j <= t.numVertOriginYMetrics,
            t.numVertOriginYMetrics <= t.entries@.len(),
            buf@ == head + vorg_entry_bytes(t.entries@, j as int),
        decreases t.numVertOriginYMetrics - j,
    {
        buf.write_u16be(t.entries[j as usize].gid);
        buf.write_u16be(t.entries[j as usize].verticalOrigin as u16);
        j = j + 1;
        assert(buf@ =~= head + vorg_entry_bytes(t.entries@, j as int));
    }
    assert(buf@ =~= vorg_bytes(*t));
    Some(buf)
}

proof fn lemma_entry_bytes_len(es: Seq<VorgEntry>, n: int)
    requires
        n >= 0,
    ensures
        vorg_entry_bytes(es, n).len() == 4 * n,
    decreases n,
{
    if n > 0 {
        lemma_entry_bytes_len(es, n - 1);
    }
}

proof fn lemma_entry_bytes_at(es: Seq<VorgEntry>, n: int, j: int)
    requires
        0 <= j < n,
    ensures
        vorg_entry_bytes(es, n).subrange(4 * j, 4 * j + 2) == be16_bytes(es[j].gid),
        vorg_entry_bytes(es, n).subrange(4 * j + 2, 4 * j + 4) == be16_bytes(es[j].verticalOrigin as u16),
    decreases n,
{
    lemma_entry_bytes_len(es, n - 1);
    let prev = vorg_entry_bytes(es, n - 1);
    let whole = vorg_entry_bytes(es, n);
    assert(whole == prev + be16_bytes(es[n - 1].gid) + be16_bytes(es[n - 1].verticalOrigin as u16));
    if j < n - 1 {
        lemma_entry_bytes_at(es, n - 1, j);
        assert(whole.subrange(4 * j, 4 * j + 2) =~= prev.subrange(4 * j, 4 * j + 2));
        assert(whole.subrange(4 * j + 2, 4 * j + 4) =~= prev.subrange(4 * j + 2, 4 * j + 4));
    } else {
        assert(whole.subrange(4 * j, 4 * j + 2) =~= be16_bytes(es[j].gid));
        assert(whole.subrange(4 * j + 2, 4 * j + 4) =~= be16_bytes(es[j].verticalOrigin as u16));
    }
}

/// Reading back a written VORG table gives the same table: every written
/// table is readable, and what is read holds the same default origin,
/// count and entries.
pub proof fn lemma_vorg_roundtrip(t: VorgTable)
    requires
        vorg_wf(t),
    ensures
        vorg_ok(vorg_bytes(t)),
        vorg_matches(t, vorg_bytes(t)),
{
    let d = vorg_bytes(t);
    let n = t.numVertOriginYMetrics as int;
    let body = vorg_entry_bytes(t.entries@, n);
    lemma_entry_bytes_len(t.entries@, n);
    assert(d.len() == 8 + 4 * n);
    assert(d.subrange(4, 6) =~= be16_bytes(t.defaultVerticalOrigin as u16));
    assert(d.subrange(6, 8) =~= be16_bytes(t.numVertOriginYMetrics));
    lemma_be16_roundtrip(d, 4, t.defaultVerticalOrigin as u16);
    lemma_be16_roundtrip(d, 6, t.numVertOriginYMetrics);
    lemma_s16_roundtrip(t.defaultVerticalOrigin);
    assert forall|j: int| 0 <= j < t.entries@.len() implies #[trigger] t.entries@[j] == vorg_entry_at(d, j) by {
        lemma_entry_bytes_at(t.entries@, n, j);
        assert(d.subrange(8 + 4 * j, 8 + 4 * j + 2) =~= body.subrange(4 * j, 4 * j + 2));
        assert(d.subrange(8 + 4 * j + 2, 8 + 4 * j + 4) =~= body.subrange(4 * j + 2, 4 * j + 4));
        lemma_be16_roundtrip(d, 8 + 4 * j, t.entries@[j].gid);
        lemma_be16_roundtrip(d, 8 + 4 * j + 2, t.entries@[j].verticalOrigin as u16);
        lemma_s16_roundtrip(t.entries@[j].verticalOrigin);
    }
}

/// Reading a VORG table: it is readable exactly when its 8-byte header
/// and the 4-byte entries its count (bytes 6-7) announces fit; then the
/// default origin is the signed word at bytes 4-5, and entry `j` is the
/// glyph at bytes 8+4j and the signed origin at bytes 10+4j.
pub proof fn lemma_vorg_read_law(t: VorgTable, d: Seq<u8>)
    ensures
        vorg_ok(d) <==> (d.len() >= 8 && 8 + 4 * be16(d, 6) <= d.len()),
        vorg_ok(d) && vorg_matches(t, d) ==> {
            &&& t.defaultVerticalOrigin == s16(be16(d, 4))
            &&& t.numVertOriginYMetrics == be16(d, 6)
            &&& t.entries@.len() == be16(d, 6)
            &&& forall|j: int| 0 <= j < t.entries@.len() ==> (#[trigger] t.entries@[j]).gid == be16(d, 8 + 4 * j)
                && t.entries@[j].verticalOrigin == s16(be16(d, 10 + 4 * j))
        },
{
    if vorg_ok(d) && vorg_matches(t, d) {
        assert forall|j: int| 0 <= j < t.entries@.len() implies (#[trigger] t.entries@[j]).gid == be16(d, 8 + 4 * j)
            && t.entries@[j].verticalOrigin == s16(be16(d, 10 + 4 * j)) by {
            assert(t.entries@[j] == vorg_entry_at(d, j));
        }
    }
}

/// Writing a VORG table: version 1.0 (bytes 0-3), the default origin at
/// bytes 4-5, the count at 6-7, then entry `j`'s glyph at 8+4j and origin
/// at 10+4j, and nothing more.
pub proof fn lemma_vorg_write_law(t: VorgTable)
    requires
        vorg_wf(t),
    ensures
        vorg_bytes(t).len() == 8 + 4 * t.entries@.len(),
        be16(vorg_bytes(t), 0) == 1,
        be16(vorg_bytes(t), 2) == 0,
        be16(vorg_bytes(t), 4) == t.defaultVerticalOrigin as u16,
        be16(vorg_bytes(t), 6) == t.entries@.len(),
        forall|j: int| 0 <= j < t.entries@.len() ==> be16(vorg_bytes(t), 8 + 4 * j) == (#[trigger] t.entries@[j]).gid
            && be16(vorg_bytes(t), 10 + 4 * j) == t.entries@[j].verticalOrigin as u16,
{
    let d = vorg_bytes(t);
    let n = t.numVertOriginYMetrics as int;
    let body = vorg_entry_bytes(t.entries@, n);
    lemma_entry_bytes_len(t.entries@, n);
    assert(d.subrange(0, 2) =~= be16_bytes(1));
    assert(d.subrange(2, 4) =~= be16_bytes(0));
    assert(d.subrange(4, 6) =~= be16_bytes(t.defaultVerticalOrigin as u16));
    assert(d.subrange(6, 8) =~= be16_bytes(t.numVertOriginYMetrics));
    lemma_be16_roundtrip(d, 0, 1);
    lemma_be16_roundtrip(d, 2, 0);
    lemma_be16_roundtrip(d, 4, t.defaultVerticalOrigin as u16);
    lemma_be16_roundtrip(d, 6, t.numVertOriginYMetrics);
    assert forall|j: int| 0 <= j < t.entries@.len() implies be16(d, 8 + 4 * j) == (#[trigger] t.entries@[j]).gid
        && be16(d, 10 + 4 * j) == t.entries@[j].verticalOrigin as u16 by {
        lemma_entry_bytes_at(t.entries@, n, j);
        assert(d.subrange(8 + 4 * j, 8 + 4 * j + 2) =~= body.subrange(4 * j, 4 * j + 2));
        assert(d.subrange(8 + 4 * j + 2, 8 + 4 * j + 4) =~= body.subrange(4 * j + 2, 4 * j + 4));
        lemma_be16_roundtrip(d, 8 + 4 * j, t.entries@[j].gid);
        lemma_be16_roundtrip(d, 8 + 4 * j + 2, t.entries@[j].verticalOrigin as u16);
    }
}

} // verus!
