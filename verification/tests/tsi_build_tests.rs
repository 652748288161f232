use otfcc::handle::{handle_from_index, otfcc_handle_empty};
use otfcc::packet::{Packet, PacketPiece};
use otfcc::tag::{TAG_TSI0, TAG_TSI1, TAG_TSI2, TAG_TSI3};
use otfcc::tsi::{otfcc_build_tsi, otfcc_read_tsi, propergid, tsi_entry_dup, TsiEntry, TsiEntryType};

fn glyph(gid: u16, text: &[u8]) -> TsiEntry {
    TsiEntry { type_0: TsiEntryType::Glyph, glyph: handle_from_index(gid), content: text.to_vec() }
}

fn extra(ty: TsiEntryType, text: &[u8]) -> TsiEntry {
    TsiEntry { type_0: ty, glyph: otfcc_handle_empty(), content: text.to_vec() }
}

#[test]
fn build_writes_glyphs_marker_and_padded_extras() {
    let t = vec![glyph(4, b"ab"), extra(TsiEntryType::Fpgm, b"f"), glyph(2, b"c")];
    let r = otfcc_build_tsi(Some(&t));
    let text = r.text_part.unwrap().data;
    assert_eq!(text, b"abcf".to_vec());
    let index = r.index_part.unwrap().data;
    let expect: Vec<u8> = vec![
        0, 4, 0, 2, 0, 0, 0, 0, // glyph 4
        0, 2, 0, 1, 0, 0, 0, 2, // glyph 2
        0xff, 0xfe, 0, 0, 0xab, 0xfc, 0x1f, 0x34, // marker
        0xff, 0xfa, 0, 0, 0, 0, 0, 3, // prep padding
        0xff, 0xfb, 0, 0, 0, 0, 0, 3, // cvt padding
        0xff, 0xfc, 0, 0, 0, 0, 0, 3, // reserved padding
        0xff, 0xfd, 0, 1, 0, 0, 0, 3, // fpgm
    ];
    assert_eq!(index, expect);
    let none = otfcc_build_tsi(None);
    assert!(none.index_part.is_none() && none.text_part.is_none());
}

#[test]
fn long_texts_get_the_sentinel_length_and_read_back() {
    let long = vec![b'x'; 0x8001];
    let t = vec![glyph(1, &long), glyph(2, b"yz"), extra(TsiEntryType::Prep, b"p")];
    let r = otfcc_build_tsi(Some(&t));
    let index = r.index_part.unwrap().data;
    assert_eq!(&index[0..8], &[0, 1, 0x80, 0, 0, 0, 0, 0]);
    let p = Packet {
        sfnt_version: 0,
        num_tables: 2,
        search_range: 0,
        entry_selector: 0,
        range_shift: 0,
        pieces: vec![
            PacketPiece { tag: TAG_TSI0, check_sum: 0, offset: 0, length: index.len() as u32, data: index },
            PacketPiece { tag: TAG_TSI1, check_sum: 0, offset: 0, length: 0, data: r.text_part.unwrap().data },
        ],
    };
    let back = otfcc_read_tsi(&p, TAG_TSI0, TAG_TSI1).unwrap();
    assert_eq!(back.len(), 3);
    assert_eq!(back[0].content.len(), 0x8001);
    assert_eq!(back[1].content, b"yz".to_vec());
    assert_eq!(back[2].type_0, TsiEntryType::Prep);
    assert_eq!(back[2].content, b"p".to_vec());
}

#[test]
fn proper_gids_and_duplicates() {
    let e = glyph(7, b"q");
    assert_eq!(propergid(Some(&e), TsiEntryType::Glyph), 7);
    assert_eq!(propergid(None, TsiEntryType::Cvt), 0xfffb);
    assert_eq!(propergid(None, TsiEntryType::ReservedFffc), 0xfffc);
    let d = tsi_entry_dup(&e);
    assert_eq!(d.glyph.index, 7);
    assert_eq!(d.content, e.content);
}

#[test]
fn missing_text_part_gives_no_table() {
    let p = Packet {
        sfnt_version: 0,
        num_tables: 1,
        search_range: 0,
        entry_selector: 0,
        range_shift: 0,
        pieces: vec![PacketPiece { tag: TAG_TSI0, check_sum: 0, offset: 0, length: 0, data: vec![] }],
    };
    assert!(otfcc_read_tsi(&p, TAG_TSI0, TAG_TSI1).is_none());
}

#[test]
fn read_back_groups_entries_by_type() {
    let t = vec![
        extra(TsiEntryType::Fpgm, b"f"),
        glyph(3, b"a"),
        extra(TsiEntryType::Cvt, b"c"),
        extra(TsiEntryType::ReservedFffc, b"r"),
        glyph(5, b""),
        extra(TsiEntryType::Prep, b"p"),
        glyph(1, b"b"),
    ];
    let r = otfcc_build_tsi(Some(&t));
    let p = Packet {
        sfnt_version: 0,
        num_tables: 2,
        search_range: 0,
        entry_selector: 0,
        range_shift: 0,
        pieces: vec![
            PacketPiece { tag: TAG_TSI0, check_sum: 0, offset: 0, length: 0, data: r.index_part.unwrap().data },
            PacketPiece { tag: TAG_TSI1, check_sum: 0, offset: 0, length: 0, data: r.text_part.unwrap().data },
        ],
    };
    let back = otfcc_read_tsi(&p, TAG_TSI0, TAG_TSI1).unwrap();
    let got: Vec<(TsiEntryType, u16, Vec<u8>)> = back.iter().map(|e| (e.type_0, e.glyph.index, e.content.clone())).collect();
    assert_eq!(
        got,
        vec![
            (TsiEntryType::Glyph, 3, b"a".to_vec()),
            (TsiEntryType::Glyph, 1, b"b".to_vec()),
            (TsiEntryType::Prep, 0, b"p".to_vec()),
            (TsiEntryType::Cvt, 0, b"c".to_vec()),
            (TsiEntryType::Fpgm, 0, b"f".to_vec()),
        ]
    );
}

#[test]
fn sources_pair_reads_back_glyph_texts_only() {
    let t = vec![glyph(2, b"src"), extra(TsiEntryType::Prep, b"p"), glyph(0, b"s0")];
    let r = otfcc_build_tsi(Some(&t));
    let p = Packet {
        sfnt_version: 0,
        num_tables: 2,
        search_range: 0,
        entry_selector: 0,
        range_shift: 0,
        pieces: vec![
            PacketPiece { tag: TAG_TSI2, check_sum: 0, offset: 0, length: 0, data: r.index_part.unwrap().data },
            PacketPiece { tag: TAG_TSI3, check_sum: 0, offset: 0, length: 0, data: r.text_part.unwrap().data },
        ],
    };
    let back = otfcc_read_tsi(&p, TAG_TSI2, TAG_TSI3).unwrap();
    let got: Vec<(u16, Vec<u8>)> = back.iter().map(|e| (e.glyph.index, e.content.clone())).collect();
    assert_eq!(got, vec![(2, b"src".to_vec()), (0, b"s0".to_vec())]);
}
