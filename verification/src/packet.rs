//! The tables of one font file, as raw byte pieces keyed by tag.
use vstd::prelude::*;

verus! {

/// One table of a font file: its directory entry and its bytes.
pub struct otfcc_PacketPiece {
    pub tag: u32,
    pub check_sum: u32,
    pub offset: u32,
    pub length: u32,
    pub data: Vec<u8>,
}

/// The table directory of a font file, with every table's bytes.
pub struct otfcc_Packet {
    pub sfnt_version: u32,
    pub num_tables: u16,
    pub search_range: u16,
    pub entry_selector: u16,
    pub range_shift: u16,
    pub pieces: Vec<otfcc_PacketPiece>,
}

pub type Packet = otfcc_Packet;

pub type PacketPiece = otfcc_PacketPiece;

/// The bytes of the first piece tagged `tag`, if any piece has that tag.
pub open spec fn table_data(ps: Seq<otfcc_PacketPiece>, tag: u32) -> Option<Seq<u8>>
    decreases ps.len(),
{
    if ps.len() == 0 {
        None
    } else if ps[0].tag == tag {
        Some(ps[0].data@)
    } else {
        table_data(ps.drop_first(), tag)
    }
}

/// The bytes of the first piece of `packet` tagged `tag`.
pub fn find_table(packet: &otfcc_Packet, tag: u32) -> (r: Option<&[u8]>)
    ensures
        match r {
            Some(d) => table_data(packet.pieces@, tag) == Some(d@),
            None => table_data(packet.pieces@, tag) is None,
        },
{
    let n = packet.pieces.len();
    let mut i: usize = 0;
    assert(packet.pieces@.subrange(0, n as int) =~= packet.pieces@);
    while i < n
        invariant
            i <= n,
            n == packet.pieces@.len(),
            table_data(packet.pieces@, tag) == table_data(packet.pieces@.subrange(i as int, n as int), tag),
        decreases n - i,
    {
        let ghost rest = packet.pieces@.subrange(i as int, n as int);
        assert(rest[0] == packet.pieces@[i as int]);
        if packet.pieces[i].tag == tag {
            return Some(packet.pieces[i].data.as_slice());
        }
        assert(rest.drop_first() =~= packet.pieces@.subrange(i + 1, n as int));
        i = i + 1;
    }
    None
}

/// The data of a tag is that of the first piece carrying the tag, and
/// there is none when no piece carries it.
pub proof fn lemma_table_data_law(ps: Seq<otfcc_PacketPiece>, tag: u32)
    ensures
        table_data(ps, tag) is None <==> forall|i: int| 0 <= i < ps.len() ==> (#[trigger] ps[i]).tag != tag,
        forall|i: int| 0 <= i < ps.len() && (#[trigger] ps[i]).tag == tag && (forall|k: int| 0 <= k < i ==> ps[k].tag != tag)
            ==> table_data(ps, tag) == Some(ps[i].data@),
    decreases ps.len(),
{
    if ps.len() > 0 {
        let rest = ps.drop_first();
        lemma_table_data_law(rest, tag);
        assert forall|i: int| 0 <= i < rest.len() implies rest[i] == ps[i + 1] by {}
        if ps[0].tag != tag {
            assert((forall|i: int| 0 <= i < ps.len() ==> (#[trigger] ps[i]).tag != tag)
                <==> (forall|i: int| 0 <= i < rest.len() ==> (#[trigger] rest[i]).tag != tag)) by {
                if forall|i: int| 0 <= i < rest.len() ==> (#[trigger] rest[i]).tag != tag {
                    assert forall|i: int| 0 <= i < ps.len() implies (#[trigger] ps[i]).tag != tag by {
                        if i > 0 {
                            assert(rest[i - 1] == ps[i]);
                        }
                    }
                }
            }
            assert forall|i: int| 0 <= i < ps.len() && (#[trigger] ps[i]).tag == tag && (forall|k: int| 0 <= k < i ==> ps[k].tag != tag)
                implies table_data(ps, tag) == Some(ps[i].data@) by {
                assert(i > 0);
                assert(rest[i - 1] == ps[i]);
                assert forall|k: int| 0 <= k < i - 1 implies rest[k].tag != tag by {
                    assert(rest[k] == ps[k + 1]);
                }
            }
        } else {
            assert(ps[0].tag == tag);
        }
    }
}

} // verus!
