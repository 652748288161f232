use otfcc::packet::{Packet, PacketPiece};
use otfcc::tag::{TAG_TSI0, TAG_TSI1};
use otfcc::tsi::{otfcc_read_tsi, TsiEntryType, TsiTable};

fn index_record(gid: u16, text_length: u16, text_offset: u32) -> Vec<u8> {
    let mut b = Vec::new();
    b.extend_from_slice(&gid.to_be_bytes());
    b.extend_from_slice(&text_length.to_be_bytes());
    b.extend_from_slice(&text_offset.to_be_bytes());
    b
}

fn packet(index_data: Vec<u8>, text_data: Vec<u8>) -> Packet {
    Packet {
        sfnt_version: 0,
        num_tables: 2,
        search_range: 0,
        entry_selector: 0,
        range_shift: 0,
        pieces: vec![
            PacketPiece {
                tag: TAG_TSI0,
                check_sum: 0,
                offset: 0,
                length: index_data.len() as u32,
                data: index_data,
            },
            PacketPiece {
                tag: TAG_TSI1,
                check_sum: 0,
                offset: 0,
                length: text_data.len() as u32,
                data: text_data,
            },
        ],
    }
}

fn read(index_data: Vec<u8>, text_data: Vec<u8>) -> TsiTable {
    let p = packet(index_data, text_data);
    otfcc_read_tsi(&p, TAG_TSI0, TAG_TSI1).unwrap()
}

#[test]
fn declared_length_resolves_content_directly() {
    let index = index_record(9, 3, 0);
    let tsi = read(index, b"ABC".to_vec());
    assert_eq!(tsi.len(), 1);
    assert_eq!(tsi[0].type_0, TsiEntryType::Glyph);
    assert_eq!(tsi[0].glyph.index, 9);
    assert_eq!(tsi[0].content, b"ABC");
}

#[test]
fn sentinel_length_is_predicted_from_the_next_entrys_offset() {
    // Entry 0: gid 1, text_length = 0x8000 ("compute it"), offset 0.
    // Entry 1: gid 2, text_length 1, offset 5.
    // Entry 0's predicted length must come from entry 1's offset (5),
    // not from "rest of the buffer" (10).
    let mut index = index_record(1, 0x8000, 0);
    index.extend(index_record(2, 1, 5));
    let tsi = read(index, b"0123456789".to_vec());
    assert_eq!(tsi.len(), 2);
    assert_eq!(tsi[0].content, b"01234");
    assert_eq!(tsi[1].content, b"5");
}

#[test]
fn sentinel_length_falls_back_to_the_rest_of_the_buffer_with_no_next_entry() {
    let index = index_record(1, 0x8000, 2);
    let tsi = read(index, b"ABCDEF".to_vec());
    assert_eq!(tsi[0].content, b"CDEF"); // offset 2 to the end
}

#[test]
fn trailing_partial_index_record_is_dropped_not_read_oob() {
    // One full 8-byte record, then 3 stray bytes -- not a full second
    // record.
    let mut index = index_record(9, 2, 0);
    index.extend_from_slice(&[0xAA, 0xBB, 0xCC]);
    let tsi = read(index, b"AB".to_vec());
    assert_eq!(tsi.len(), 1);
    assert_eq!(tsi[0].content, b"AB");
}

#[test]
fn declared_length_longer_than_the_text_part_is_dropped_not_read_oob() {
    // text_offset(0) < text_len(2), but 0 + 100 > 2.
    let index = index_record(9, 100, 0);
    let tsi = read(index, b"AB".to_vec());
    assert!(tsi.is_empty());
}

#[test]
fn text_offset_past_the_text_part_is_skipped() {
    let index = index_record(9, 1, 5);
    let tsi = read(index, b"AB".to_vec());
    assert!(tsi.is_empty());
}

#[test]
fn zero_length_entry_is_skipped() {
    let index = index_record(9, 0, 0);
    let tsi = read(index, b"AB".to_vec());
    assert!(tsi.is_empty());
}

#[test]
fn special_gids_map_to_their_reserved_entry_types() {
    for (gid, expected) in [
        (65530u16, TsiEntryType::Prep),
        (65531u16, TsiEntryType::Cvt),
        (65533u16, TsiEntryType::Fpgm),
    ] {
        let index = index_record(gid, 1, 0);
        let tsi = read(index, b"X".to_vec());
        assert_eq!(tsi[0].type_0, expected, "gid {gid}");
    }
}

#[test]
fn empty_index_table_produces_no_entries() {
    let tsi = read(Vec::new(), Vec::new());
    assert!(tsi.is_empty());
}
