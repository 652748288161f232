//! The LTSH table: the linear threshold (ppem) of each glyph.
use vstd::prelude::*;
use crate::binio::{be16, be16_bytes, fits, lemma_be16_roundtrip, read_bytes, read_u16};
use crate::buffer::Buffer;
use crate::packet::{find_table, table_data, Packet};
use crate::tag::TAG_LTSH;

verus! {

/// An LTSH table: one threshold per glyph.
pub struct LtshTable {
    pub version: u16,
    pub numGlyphs: u16,
    pub yPels: Vec<u8>,
}

/// The table's glyph count agrees with its thresholds.
pub open spec fn ltsh_wf(t: LtshTable) -> bool {
    t.yPels@.len() == t.numGlyphs
}

/// The header and one byte per glyph fit.
pub open spec fn ltsh_ok(d: Seq<u8>) -> bool {
    fits(d, 0, 4) && fits(d, 4, be16(d, 2) as int)
}

/// `t` holds the table held in `d`.
pub open spec fn ltsh_matches(t: LtshTable, d: Seq<u8>) -> bool {
    &&& t.version == be16(d, 0)
    &&& t.numGlyphs == be16(d, 2)
    &&& t.yPels@ == d.subrange(4, 4 + be16(d, 2))
}

/// The bytes written for `t`: version 0, the glyph count, the thresholds.
pub open spec fn ltsh_bytes(t: LtshTable) -> Seq<u8> {
    be16_bytes(0) + be16_bytes(t.numGlyphs) + t.yPels@.subrange(0, t.numGlyphs as int)
}

/// The LTSH table held in `data`; `None` when the header or the
/// thresholds do not fit.
pub fn read_ltsh(data: &[u8]) -> (r: Option<LtshTable>)
    ensures
        match r {
            Some(t) => ltsh_ok(data@) && ltsh_matches(t, data@) && ltsh_wf(t),
            None => !ltsh_ok(data@),
        },
{
    if data.len() < 4 {
        return None;
    }
    let version = read_u16(data, 0).unwrap();
    let num_glyphs = read_u16(data, 2).unwrap();
    let y_pels = read_bytes(data, 4, num_glyphs as usize)?;
    Some(LtshTable { version, numGlyphs: num_glyphs, yPels: y_pels })
}

/// The LTSH table of `packet`: `None` when there is none or it is truncated.
pub fn otfcc_readLTSH(packet: &Packet) -> (r: Option<LtshTable>)
    ensures
        match table_data(packet.pieces@, TAG_LTSH) {
            Some(d) => match r {
                Some(t) => ltsh_ok(d) && ltsh_matches(t, d) && ltsh_wf(t),
                None => !ltsh_ok(d),
            },
            None => r is None,
        },
{
    let data = find_table(packet, TAG_LTSH)?;
    read_ltsh(data)
}

/// Writes `ltsh`; nothing for no table.
pub fn otfcc_buildLTSH(ltsh: Option<&LtshTable>) -> (r: Option<Buffer>)
    requires
        ltsh matches Some(t) ==> t.numGlyphs <= t.yPels@.len(),
    ensures
        match ltsh {
            Some(t) => r matches Some(b) && b@ == ltsh_bytes(*t),
            None => r is None,
        },
{
    let t = match ltsh {
        Some(t) => t,
        None => return None,
    };
    let mut buf = Buffer::new();
    buf.write_u16be(0);
    buf.write_u16be(t.numGlyphs);
    let ghost head = buf@;
    let mut j: u16 = 0;
    while j < t.numGlyphs
        invariant
            j <= t.numGlyphs,
            t.numGlyphs <= t.yPels@.len(),
            buf@ == head + t.yPels@.subrange(0, j as int),
        decreases t.numGlyphs - j,
    {
        buf.data.push(t.yPels[j as usize]);
        j = j + 1;
        assert(buf@ =~= head + t.yPels@.subrange(0, j as int));
    }
    Some(buf)
}

/// Reading back a written LTSH table gives its glyph count and thresholds
/// (and version 0, the only version written).
pub proof fn lemma_ltsh_roundtrip(t: LtshTable)
    requires
        ltsh_wf(t),
    ensures
        ltsh_ok(ltsh_bytes(t)),
        be16(ltsh_bytes(t), 0) == 0,
        be16(ltsh_bytes(t), 2) == t.numGlyphs,
        ltsh_bytes(t).subrange(4, 4 + t.numGlyphs) == t.yPels@,
{
    let d = ltsh_bytes(t);
    assert(d.subrange(0, 2) =~= be16_bytes(0));
    assert(d.subrange(2, 4) =~= be16_bytes(t.numGlyphs));
    lemma_be16_roundtrip(d, 0, 0);
    lemma_be16_roundtrip(d, 2, t.numGlyphs);
    assert(d.subrange(4, 4 + t.numGlyphs) =~= t.yPels@);
}

/// Reading an LTSH table: it is readable exactly when its 4-byte header
/// and one byte per glyph of its count (bytes 2-3) fit; then the version
/// is bytes 0-1, the count bytes 2-3, and the thresholds the bytes that
/// follow, one per glyph.
pub proof fn lemma_ltsh_read_law(t: LtshTable, d: Seq<u8>)
    ensures
        ltsh_ok(d) <==> (d.len() >= 4 && 4 + be16(d, 2) <= d.len()),
        ltsh_ok(d) && ltsh_matches(t, d) ==> {
            &&& t.version == be16(d, 0)
            &&& t.numGlyphs == be16(d, 2)
            &&& t.yPels@.len() == be16(d, 2)
            &&& forall|j: int| 0 <= j < t.yPels@.len() ==> #[trigger] t.yPels@[j] == d[4 + j]
        },
{
}

} // verus!
