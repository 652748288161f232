use otfcc::base::{axis_to_bk, otfcc_build_base, otfcc_read_base, str2tag, tag2str, BaseAxis, BaseScriptEntry, BaseTable, BaseValue};
use otfcc::binio::{read_i16, read_u16, read_u32};
use otfcc::colr::{otfcc_buildCOLR, otfcc_readCOLR, ColrLayer, ColrLayerList, ColrMapping, ColrTable};
use otfcc::cpal::{buildPaletteEntryLabel, buildPaletteLabel, buildPaletteType, build_color_records, otfcc_buildCPAL, otfcc_readCPAL};
use otfcc::gdef::{otfcc_buildGDEF, otfcc_readGDEF, otl_CaretValue, readCaretValue, readLigCaretRecord, read_lig_carets, writeLigCaretRec, writeLigCarets, CaretValueWords};
use otfcc::handle::{handle_from_index, HandleState};
use otfcc::ltsh::{otfcc_buildLTSH, otfcc_readLTSH, LtshTable};
use otfcc::os_2::{otfcc_build_os_2, otfcc_read_os_2, read_os_2};
use otfcc::packet::{find_table, Packet, PacketPiece};
use otfcc::svg::{can_use_plain_format, otfcc_build_svg, otfcc_read_svg, SvgAssignment, SvgTable};
use otfcc::buffer::Buffer;
use otfcc::tag::{TAG_BASE, TAG_COLR, TAG_CPAL, TAG_GDEF, TAG_LTSH, TAG_OS_2, TAG_SVG, TAG_TSI5, TAG_VORG};
use otfcc::tsi5::{otfcc_buildTSI5, otfcc_readTSI5};
use otfcc::vorg::{otfcc_buildVORG, otfcc_readVORG, VorgEntry, VorgTable};

fn one_table(tag: u32, data: Vec<u8>) -> Packet {
    Packet {
        sfnt_version: 0x10000,
        num_tables: 1,
        search_range: 0,
        entry_selector: 0,
        range_shift: 0,
        pieces: vec![PacketPiece { tag, check_sum: 0, offset: 0, length: data.len() as u32, data }],
    }
}

fn be16(v: &mut Vec<u8>, x: u16) {
    v.extend_from_slice(&x.to_be_bytes());
}

fn be32(v: &mut Vec<u8>, x: u32) {
    v.extend_from_slice(&x.to_be_bytes());
}

#[test]
fn big_endian_reads_and_bounds() {
    let d = [0x12u8, 0x34, 0xff, 0xfe, 0x01];
    assert_eq!(read_u16(&d, 0), Some(0x1234));
    assert_eq!(read_i16(&d, 2), Some(-2));
    assert_eq!(read_u32(&d, 0), Some(0x1234fffe));
    assert_eq!(read_u16(&d, 4), None);
    assert_eq!(read_u32(&d, 2), None);
}

#[test]
fn first_piece_with_a_tag_is_used() {
    let mut p = one_table(TAG_LTSH, vec![1]);
    p.pieces.push(PacketPiece { tag: TAG_LTSH, check_sum: 0, offset: 0, length: 1, data: vec![2] });
    assert_eq!(find_table(&p, TAG_LTSH), Some(&[1u8][..]));
    assert_eq!(find_table(&p, TAG_VORG), None);
}

#[test]
fn base_table_is_read_from_a_packet() {
    let mut b = Vec::new();
    be16(&mut b, 1);
    be16(&mut b, 0);
    be16(&mut b, 0);
    be16(&mut b, 0);
    let t = otfcc_read_base(&one_table(TAG_BASE, b)).unwrap();
    assert!(t.horizontal.is_none() && t.vertical.is_none());
    assert!(otfcc_read_base(&one_table(TAG_BASE, vec![0, 1, 0])).is_none());
    assert!(otfcc_read_base(&one_table(TAG_VORG, vec![0; 8])).is_none());
}

#[test]
fn axis_tag_list_is_sorted_and_deduplicated() {
    let romn = 0x726f6d6e;
    let hang = 0x68616e67;
    let ideo = 0x6964656f;
    let axis = BaseAxis {
        entries: vec![
            BaseScriptEntry {
                tag: 0x6c61746e,
                default_baseline_tag: romn,
                base_values: vec![BaseValue { tag: romn, coordinate: 0 }, BaseValue { tag: hang, coordinate: 700 }],
            },
            BaseScriptEntry {
                tag: 0x68616e69,
                default_baseline_tag: ideo,
                base_values: vec![BaseValue { tag: ideo, coordinate: -120 }],
            },
        ],
    };
    let r = axis_to_bk(&axis);
    assert_eq!(r.tag_list.items, vec![hang, ideo, romn]);
    assert_eq!(r.scripts.len(), 2);
    assert_eq!(r.scripts[0].default_index, 2);
    assert_eq!(r.scripts[0].coordinates, vec![700, 0, 0]);
    assert_eq!(r.scripts[1].default_index, 1);
    assert_eq!(r.scripts[1].coordinates, vec![0, -120, 0]);
    let t = BaseTable { horizontal: None, vertical: Some(Box::new(axis)) };
    let l = otfcc_build_base(Some(&t)).unwrap();
    assert_eq!(l.version, 0x10000);
    assert!(l.horizontal.is_none());
    assert_eq!(l.vertical.unwrap().tag_list.items, vec![hang, ideo, romn]);
    assert!(otfcc_build_base(None).is_none());
}

#[test]
fn tags_as_text() {
    let t = 0x68616e67;
    let s = tag2str(t);
    assert_eq!(&s, b"hang");
    assert_eq!(str2tag(Some(&s)), t);
    assert_eq!(str2tag(Some(b"ab\0z")), 0x61622020);
    assert_eq!(str2tag(Some(b"abcdef")), 0x61626364);
    assert_eq!(str2tag(None), 0);
}

fn cpal_v0() -> Vec<u8> {
    // 2 entries per palette, 2 palettes, 3 color records.
    let mut b = Vec::new();
    be16(&mut b, 0);
    be16(&mut b, 2);
    be16(&mut b, 2);
    be16(&mut b, 3);
    be32(&mut b, 16);
    be16(&mut b, 0); // palette 0 starts at record 0
    be16(&mut b, 2); // palette 1 starts at record 2 (second entry missing)
    b.extend_from_slice(&[1, 2, 3, 4, 5, 6, 7, 8, 9, 10, 11, 12]); // BGRA records
    b
}

#[test]
fn cpal_palettes_are_read_and_padded_with_white() {
    let t = otfcc_readCPAL(&one_table(TAG_CPAL, cpal_v0())).unwrap();
    assert_eq!(t.version, 0);
    assert_eq!(t.palettes.items.len(), 2);
    let p0 = &t.palettes.items[0];
    assert_eq!(p0.type_0, 0);
    assert_eq!(p0.label, 0xffff);
    assert_eq!((p0.colorset.items[0].red, p0.colorset.items[0].green, p0.colorset.items[0].blue, p0.colorset.items[0].alpha), (3, 2, 1, 4));
    assert_eq!(p0.colorset.items[1].red, 7);
    let p1 = &t.palettes.items[1];
    assert_eq!(p1.colorset.items[0].blue, 9);
    let w = p1.colorset.items[1];
    assert_eq!((w.red, w.green, w.blue, w.alpha, w.label), (255, 255, 255, 255, 0xffff));
    assert_eq!(buildPaletteType(&t), None);
    assert_eq!(buildPaletteLabel(&t), None);
    assert_eq!(buildPaletteEntryLabel(&t), None);
    assert_eq!(build_color_records(&t), vec![1, 2, 3, 4, 5, 6, 7, 8, 9, 10, 11, 12, 255, 255, 255, 255]);
}

#[test]
fn cpal_version_1_arrays() {
    // The version-1 array offsets are read from 16 + 2 * numPalettes onwards.
    let mut b = Vec::new();
    be16(&mut b, 1);
    be16(&mut b, 1); // one entry
    be16(&mut b, 1); // one palette
    be16(&mut b, 1); // one record
    be32(&mut b, 30); // records at 30
    be16(&mut b, 0); // palette start
    be32(&mut b, 0); // (unread)
    be32(&mut b, 34); // palette types at 34
    be32(&mut b, 38); // palette labels at 38
    be32(&mut b, 0); // no entry labels
    b.extend_from_slice(&[10, 20, 30, 40]); // @30
    be32(&mut b, 2); // @34 type
    be16(&mut b, 7); // @38 label
    let t = otfcc_readCPAL(&one_table(TAG_CPAL, b)).unwrap();
    assert_eq!(t.palettes.items[0].type_0, 2);
    assert_eq!(t.palettes.items[0].label, 7);
    assert_eq!(buildPaletteType(&t), Some(vec![2]));
    assert_eq!(buildPaletteLabel(&t), Some(vec![7]));
    let l = otfcc_buildCPAL(Some(&t)).unwrap();
    assert_eq!(l.types, Some(vec![2]));
    assert_eq!(l.labels, Some(vec![7]));
    assert_eq!(l.entry_labels, None);
}

#[test]
fn cpal_layout() {
    let t = otfcc_readCPAL(&one_table(TAG_CPAL, cpal_v0())).unwrap();
    let l = otfcc_buildCPAL(Some(&t)).unwrap();
    assert_eq!((l.version, l.num_entries, l.num_palettes, l.num_color_records), (0, 2, 2, 4));
    assert_eq!(l.first_records, vec![0, 2]);
    assert_eq!(l.color_records, build_color_records(&t));
    assert!(l.types.is_none() && l.labels.is_none() && l.entry_labels.is_none());
    assert!(otfcc_buildCPAL(None).is_none());
}

#[test]
fn cpal_truncated_tables_are_rejected() {
    assert!(otfcc_readCPAL(&one_table(TAG_CPAL, vec![0])).is_none());
    assert!(otfcc_readCPAL(&one_table(TAG_CPAL, cpal_v0()[..20].to_vec())).is_none());
    let mut short_header = cpal_v0();
    short_header[1] = 1; // version 1 needs a 26-byte header plus indices
    short_header.truncate(27);
    assert!(otfcc_readCPAL(&one_table(TAG_CPAL, short_header)).is_none());
}

fn colr_sample() -> Vec<u8> {
    let mut b = Vec::new();
    be16(&mut b, 0);
    be16(&mut b, 2); // two base glyphs
    be32(&mut b, 14);
    be32(&mut b, 26);
    be16(&mut b, 3); // three layers
    // base glyph records @14
    be16(&mut b, 40);
    be16(&mut b, 1);
    be16(&mut b, 2);
    be16(&mut b, 30);
    be16(&mut b, 2);
    be16(&mut b, 5); // runs past the layer records: one layer kept
    // layer records @26
    for (g, c) in [(100u16, 0u16), (101, 1), (102, 2)] {
        be16(&mut b, g);
        be16(&mut b, c);
    }
    b
}

#[test]
fn colr_layers_are_read_within_the_layer_records() {
    let t = otfcc_readCOLR(&one_table(TAG_COLR, colr_sample())).unwrap();
    assert_eq!(t.items.len(), 2);
    assert_eq!(t.items[0].glyph.index, 40);
    assert_eq!(t.items[0].glyph.state, HandleState::Index);
    let l: Vec<(u16, u16)> = t.items[0].layers.items.iter().map(|l| (l.glyph.index, l.paletteIndex)).collect();
    assert_eq!(l, vec![(101, 1), (102, 2)]);
    assert_eq!(t.items[1].layers.items.len(), 1);
    assert_eq!(t.items[1].layers.items[0].glyph.index, 102);
    assert!(otfcc_readCOLR(&one_table(TAG_COLR, colr_sample()[..30].to_vec())).is_none());
}

#[test]
fn colr_records_are_ordered_by_glyph() {
    let t = otfcc_readCOLR(&one_table(TAG_COLR, colr_sample())).unwrap();
    let r = otfcc_buildCOLR(&t).unwrap();
    let b: Vec<(u16, u16, u16)> = r.base_records.iter().map(|x| (x.gid, x.first_layer, x.num_layers)).collect();
    assert_eq!(b, vec![(30, 0, 1), (40, 1, 2)]);
    let l: Vec<(u16, u16)> = r.layer_records.iter().map(|x| (x.gid, x.palette_index)).collect();
    assert_eq!(l, vec![(102, 2), (101, 1), (102, 2)]);
    assert_eq!(r.num_layer_records, 3);
    assert!(otfcc_buildCOLR(&ColrTable { items: vec![] }).is_none());
    let single = ColrTable {
        items: vec![ColrMapping {
            glyph: handle_from_index(3),
            layers: ColrLayerList { items: vec![ColrLayer { glyph: handle_from_index(4), paletteIndex: 9 }] },
        }],
    };
    assert_eq!(otfcc_buildCOLR(&single).unwrap().base_records[0].num_layers, 1);
}

#[test]
fn gdef_carets() {
    let mut b = Vec::new();
    be16(&mut b, 0); // padding
    // LigCaretList @2: coverage offset, count 1, LigGlyph offset 6
    be16(&mut b, 0);
    be16(&mut b, 1);
    be16(&mut b, 6);
    // LigGlyph @8: 2 carets at +6 and +10
    be16(&mut b, 2);
    be16(&mut b, 6);
    be16(&mut b, 10);
    // caret @14: format 1, coordinate 300
    be16(&mut b, 1);
    be16(&mut b, 300);
    // caret @18: format 2, point 5
    be16(&mut b, 2);
    be16(&mut b, 5);
    let c = readCaretValue(&b, 14);
    assert_eq!((c.format, c.coordiante, c.pointIndex), (1, 300, -1));
    let c = readCaretValue(&b, 18);
    assert_eq!((c.format, c.coordiante, c.pointIndex), (2, 0, 5));
    let c = readCaretValue(&b, 20);
    assert_eq!((c.format, c.coordiante, c.pointIndex), (0, 0, -1));
    let r = readLigCaretRecord(&b, 8);
    assert_eq!(r.carets.items.len(), 2);
    assert_eq!(r.glyph.state, HandleState::Empty);
    let t = read_lig_carets(&b, 2, &vec![handle_from_index(77)]).unwrap();
    assert_eq!(t.items[0].glyph.index, 77);
    assert_eq!(t.items[0].carets.items[1].pointIndex, 5);
    assert!(read_lig_carets(&b, 2, &vec![]).is_none());
    assert!(readLigCaretRecord(&b, 21).carets.items.is_empty());
}

fn gdef_sample() -> Vec<u8> {
    let mut b = Vec::new();
    be32(&mut b, 0x10000);
    be16(&mut b, 30); // glyph class definition
    be16(&mut b, 0); // attachment list
    be16(&mut b, 12); // ligature caret list
    be16(&mut b, 0); // no mark attachment classes
    // LigCaretList @12: coverage at +40, one ligature at +6
    be16(&mut b, 40);
    be16(&mut b, 1);
    be16(&mut b, 6);
    // LigGlyph @18: one caret at +4
    be16(&mut b, 1);
    be16(&mut b, 4);
    // caret @22: format 1, coordinate 120
    be16(&mut b, 1);
    be16(&mut b, 120);
    b
}

#[test]
fn gdef_header_and_carets() {
    let p = one_table(TAG_GDEF, gdef_sample());
    let classes = otfcc::tsi5::ClassDef { glyphs: vec![handle_from_index(3)], classes: vec![2] };
    let t = otfcc_readGDEF(&p, Some(classes), Some(vec![handle_from_index(8)]), None).unwrap();
    assert_eq!(t.glyphClassDef.as_ref().unwrap().classes, vec![2]);
    assert!(t.markAttachClassDef.is_none());
    assert_eq!(t.ligCarets.items.len(), 1);
    assert_eq!(t.ligCarets.items[0].glyph.index, 8);
    assert_eq!(t.ligCarets.items[0].carets.items[0].coordiante, 120);
    // A coverage that could not be read, or that disagrees with the list, rejects the table.
    assert!(otfcc_readGDEF(&p, None, None, None).is_none());
    assert!(otfcc_readGDEF(&p, None, Some(vec![]), None).is_none());
    assert!(otfcc_readGDEF(&one_table(TAG_GDEF, gdef_sample()[..11].to_vec()), None, None, None).is_none());
    assert!(otfcc_readGDEF(&one_table(TAG_BASE, gdef_sample()), None, None, None).is_none());
    let l = otfcc_buildGDEF(Some(&t)).unwrap();
    assert_eq!(l.version, 0x10000);
    assert_eq!(l.glyph_class_def.unwrap().glyphs[0].index, 3);
    assert!(l.mark_attach_class_def.is_none());
    let w = l.lig_carets.unwrap();
    assert_eq!(w.coverage[0].index, 8);
    assert_eq!(w.records[0].carets, vec![CaretValueWords { format: 1, value: 120 }]);
    assert!(otfcc_buildGDEF(None).is_none());
}

#[test]
fn gdef_carets_are_written_as_words() {
    let mut b = Vec::new();
    be16(&mut b, 0);
    be16(&mut b, 0);
    be16(&mut b, 1);
    be16(&mut b, 6);
    be16(&mut b, 3);
    be16(&mut b, 8);
    be16(&mut b, 12);
    be16(&mut b, 16);
    be16(&mut b, 1);
    be16(&mut b, 300);
    be16(&mut b, 2);
    be16(&mut b, 5);
    be16(&mut b, 3);
    be16(&mut b, 0xffff); // read as 65535, written at the top of the signed range
    let t = read_lig_carets(&b, 2, &vec![handle_from_index(9)]).unwrap();
    let w = writeLigCarets(&t);
    assert_eq!(w.count, 1);
    assert_eq!(w.coverage[0].index, 9);
    assert_eq!(w.records[0].count, 3);
    assert_eq!(
        w.records[0].carets,
        vec![
            CaretValueWords { format: 1, value: 300 },
            CaretValueWords { format: 2, value: 5 },
            CaretValueWords { format: 3, value: 0x7fff },
        ]
    );
    let mut rec = readLigCaretRecord(&b, 8);
    rec.carets.items.push(otl_CaretValue { format: -1, coordiante: -40000, pointIndex: -1 });
    let words = writeLigCaretRec(&rec);
    assert_eq!(words.count, 4);
    assert_eq!(words.carets[3], CaretValueWords { format: 0xffff, value: 0x8000 });
}

#[test]
fn ltsh_round_trip() {
    let t = LtshTable { version: 0, numGlyphs: 3, yPels: vec![1, 2, 3] };
    let b = otfcc_buildLTSH(Some(&t)).unwrap();
    assert_eq!(b.data, vec![0, 0, 0, 3, 1, 2, 3]);
    let r = otfcc_readLTSH(&one_table(TAG_LTSH, b.data)).unwrap();
    assert_eq!((r.version, r.numGlyphs, r.yPels), (0, 3, vec![1, 2, 3]));
    assert!(otfcc_readLTSH(&one_table(TAG_LTSH, vec![0, 0, 0, 3, 1])).is_none());
    assert!(otfcc_buildLTSH(None).is_none());
}

#[test]
fn vorg_round_trip() {
    let t = VorgTable {
        numVertOriginYMetrics: 2,
        defaultVerticalOrigin: 880,
        entries: vec![VorgEntry { gid: 5, verticalOrigin: -3 }, VorgEntry { gid: 9, verticalOrigin: 1000 }],
    };
    let b = otfcc_buildVORG(Some(&t)).unwrap();
    assert_eq!(b.data, vec![0, 1, 0, 0, 0x03, 0x70, 0, 2, 0, 5, 0xff, 0xfd, 0, 9, 0x03, 0xe8]);
    let r = otfcc_readVORG(&one_table(TAG_VORG, b.data.clone())).unwrap();
    assert_eq!(r.defaultVerticalOrigin, 880);
    assert_eq!(r.entries, t.entries);
    assert!(otfcc_readVORG(&one_table(TAG_VORG, b.data[..15].to_vec())).is_none());
}

#[test]
fn tsi5_read_and_build() {
    let t = otfcc_readTSI5(&one_table(TAG_TSI5, vec![0, 1, 0, 2, 0, 3, 9])).unwrap();
    assert_eq!(t.classes, vec![1, 2, 3]);
    assert_eq!(t.glyphs[2].index, 2);
    let b = otfcc_buildTSI5(Some(&t), 4).unwrap();
    assert_eq!(b.data, vec![0, 1, 0, 2, 0, 3, 0, 0]);
    let b = otfcc_buildTSI5(Some(&t), 2).unwrap();
    assert_eq!(b.data, vec![0, 1, 0, 2]);
}

fn os2_v5() -> Vec<u8> {
    let mut b: Vec<u8> = (0..100u8).collect();
    b[0] = 0;
    b[1] = 5;
    b
}

#[test]
fn os2_read_and_build() {
    let t = otfcc_read_os_2(&one_table(TAG_OS_2, os2_v5())).unwrap();
    assert_eq!(t.version, 5);
    assert_eq!(t.xAvgCharWidth, 0x0203);
    assert_eq!(t.panose, [32, 33, 34, 35, 36, 37, 38, 39, 40, 41]);
    assert_eq!(t.achVendID, [58, 59, 60, 61]);
    assert_eq!(t.ulCodePageRange2, 0x52535455);
    assert_eq!(t.usMaxContext, 0x5e5f);
    assert_eq!(t.usLowerOpticalPointSize, 0x6263);
    assert_eq!(t.usUpperOpticalPointSize, 0);
    let b = otfcc_build_os_2(Some(&t)).unwrap();
    assert_eq!(b.data.len(), 100);
    assert_eq!(&b.data[..96], &os2_v5()[..96]);
    assert!(read_os_2(&os2_v5()[..99]).is_none());
    let mut v0 = os2_v5();
    v0[1] = 0;
    v0.truncate(70);
    let t0 = read_os_2(&v0).unwrap();
    assert_eq!(t0.sTypoAscender, 0);
    assert_eq!(t0.ulCodePageRange1, 0);
    assert_eq!(otfcc_build_os_2(Some(&t0)).unwrap().data.len(), 86);
}

#[test]
fn os2_round_trip_clears_what_the_version_lacks() {
    let mut t = otfcc_read_os_2(&one_table(TAG_OS_2, os2_v5())).unwrap();
    t.version = 1;
    t.usUpperOpticalPointSize = 9;
    let back = read_os_2(&otfcc_build_os_2(Some(&t)).unwrap().data).unwrap();
    assert_eq!(back.version, 1);
    assert_eq!(back.xAvgCharWidth, t.xAvgCharWidth);
    assert_eq!(back.panose, t.panose);
    assert_eq!(back.usWinDescent, t.usWinDescent);
    assert_eq!(back.ulCodePageRange1, t.ulCodePageRange1);
    assert_eq!(back.ulCodePageRange2, t.ulCodePageRange2);
    assert_eq!(back.sxHeight, 0);
    assert_eq!(back.usMaxContext, 0);
    assert_eq!(back.usLowerOpticalPointSize, 0);
    t.version = 5;
    let back5 = read_os_2(&otfcc_build_os_2(Some(&t)).unwrap().data).unwrap();
    assert_eq!(back5.usMaxContext, t.usMaxContext);
    assert_eq!(back5.usLowerOpticalPointSize, 9);
    assert_eq!(back5.usUpperOpticalPointSize, 0);
}

#[test]
fn svg_documents() {
    let mut b = Vec::new();
    be16(&mut b, 0);
    be32(&mut b, 10); // document index @10
    be32(&mut b, 0);
    be16(&mut b, 2);
    // record 0: glyphs 3..4, doc at +26 length 4
    be16(&mut b, 3);
    be16(&mut b, 4);
    be32(&mut b, 26);
    be32(&mut b, 4);
    // record 1: glyph 1, doc running past the table
    be16(&mut b, 1);
    be16(&mut b, 1);
    be32(&mut b, 26);
    be32(&mut b, 100);
    b.extend_from_slice(b"<svg");
    let t = otfcc_read_svg(&one_table(TAG_SVG, b)).unwrap();
    assert_eq!(t.items.len(), 2);
    assert_eq!(t.items[0].document.data, b"<svg".to_vec());
    assert!(t.items[1].document.data.is_empty());
    assert!(!can_use_plain_format(&t.items[0].document));
    assert!(can_use_plain_format(&Buffer { data: b"<svg>".to_vec() }));
    assert!(can_use_plain_format(&Buffer { data: b"<?xml ".to_vec() }));
    let recs = otfcc_build_svg(&t).unwrap();
    assert_eq!((recs[0].start, recs[1].start), (1, 3));
    assert_eq!(recs[1].length, 4);
    assert!(otfcc_build_svg(&SvgTable { items: vec![] }).is_none());
    let one = SvgTable { items: vec![SvgAssignment { start: 2, end: 2, document: Buffer { data: vec![1] } }] };
    assert_eq!(otfcc_build_svg(&one).unwrap()[0].document, vec![1]);
}
