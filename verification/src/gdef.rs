//! The GDEF table: its header and ligature caret list.
use vstd::prelude::*;
use crate::binio::{add_pos, be16, fits, low_s8, read_u16, s16, to_low_s8, to_s16};
use crate::handle::{is_empty_handle, otfcc_handle_dup, otfcc_handle_empty, same_handle, GlyphHandle, Handle};
use crate::packet::{find_table, table_data, Packet};
use crate::tag::TAG_GDEF;
use crate::tsi5::ClassDef;

verus! {

/// One caret: a coordinate (formats 1 and 3) or a contour point (format 2).
#[derive(Copy, Clone, PartialEq, Eq, Structural, Debug)]
pub struct otl_CaretValue {
    pub format: i8,
    pub coordiante: i32,
    pub pointIndex: i16,
}

/// The carets of one ligature.
pub struct otl_CaretValueList {
    pub items: Vec<otl_CaretValue>,
}

/// A ligature glyph and its carets.
pub struct otl_CaretValueRecord {
    pub glyph: GlyphHandle,
    pub carets: otl_CaretValueList,
}

/// The ligature caret list: one record per covered ligature.
pub struct otl_LigCaretTable {
    pub items: Vec<otl_CaretValueRecord>,
}

/// A GDEF table: glyph classes, mark attachment classes, ligature carets.
pub struct table_GDEF {
    pub glyphClassDef: Option<ClassDef>,
    pub markAttachClassDef: Option<ClassDef>,
    pub ligCarets: otl_LigCaretTable,
}

/// The caret stored at `off`: format 0, coordinate 0 and no point when
/// the 4-byte record does not fit; otherwise its format (low byte) and
/// either its point index (format 2) or its coordinate (as an unsigned
/// word).
pub open spec fn caret_value(d: Seq<u8>, off: int) -> otl_CaretValue {
    if fits(d, off, 4) {
        let format = low_s8(be16(d, off));
        if format == 2 {
            otl_CaretValue { format, coordiante: 0, pointIndex: s16(be16(d, off + 2)) }
        } else {
            otl_CaretValue { format, coordiante: be16(d, off + 2) as i32, pointIndex: -1i16 }
        }
    } else {
        otl_CaretValue { format: 0, coordiante: 0, pointIndex: -1i16 }
    }
}

/// The number of carets of the LigGlyph table at `off`.
pub open spec fn caret_count(d: Seq<u8>, off: int) -> u16 {
    be16(d, off)
}

/// The LigGlyph table at `off` and its caret offsets fit.
pub open spec fn lig_glyph_ok(d: Seq<u8>, off: int) -> bool {
    fits(d, off, 2) && fits(d, off + 2, 2 * caret_count(d, off))
}

/// The carets of the LigGlyph table at `off`: none when it does not fit.
pub open spec fn lig_glyph_carets(d: Seq<u8>, off: int) -> Seq<otl_CaretValue> {
    if lig_glyph_ok(d, off) {
        Seq::new(caret_count(d, off) as nat, |j: int| caret_value(d, off + be16(d, off + 2 + 2 * j)))
    } else {
        Seq::empty()
    }
}

/// The caret record at `offset`.
pub fn readCaretValue(data: &[u8], offset: usize) -> (r: otl_CaretValue)
    ensures
        r == caret_value(data@, offset as int),
{
    let len = data.len();
    if offset > len || len - offset < 4 {
        return otl_CaretValue { format: 0, coordiante: 0, pointIndex: -1i16 };
    }
    let format = to_low_s8(read_u16(data, offset).unwrap());
    let value = read_u16(data, offset + 2).unwrap();
    if format == 2 {
        otl_CaretValue { format, coordiante: 0, pointIndex: to_s16(value) }
    } else {
        otl_CaretValue { format, coordiante: value as i32, pointIndex: -1i16 }
    }
}

/// The carets of the LigGlyph table at `offset`, for no glyph yet.
pub fn readLigCaretRecord(data: &[u8], offset: usize) -> (r: otl_CaretValueRecord)
    ensures
        is_empty_handle(r.glyph),
        r.carets.items@ == lig_glyph_carets(data@, offset as int),
{
    let ghost d = data@;
    let len = data.len();
    let glyph = otfcc_handle_empty();
    let mut carets: Vec<otl_CaretValue> = Vec::new();
    if offset > len || len - offset < 2 {
        return otl_CaretValueRecord { glyph, carets: otl_CaretValueList { items: carets } };
    }
    let count = read_u16(data, offset).unwrap();
    if (len - offset - 2) / 2 < count as usize {
        return otl_CaretValueRecord { glyph, carets: otl_CaretValueList { items: carets } };
    }
    let mut j: u16 = 0;
    while j < count
        invariant
            j <= count,
            d == data@,
            len == d.len(),
            count == caret_count(d, offset as int),
            offset + 2 + 2 * count <= len,
            carets@ =~= Seq::new(j as nat, |k: int| caret_value(d, offset + be16(d, offset + 2 + 2 * k))),
        decreases count - j,
    {
        let rel = read_u16(data, offset + 2 + 2 * (j as usize)).unwrap();
        let caret = match add_pos(offset, rel as usize) {
            Some(p) => readCaretValue(data, p),
            None => otl_CaretValue { format: 0, coordiante: 0, pointIndex: -1 },
        };
        carets.push(caret);
        j = j + 1;
    }
    otl_CaretValueRecord { glyph, carets: otl_CaretValueList { items: carets } }
}

/// The ligature caret list at `off` is readable against a coverage of
/// `n` glyphs: its header fits, it lists `n` ligatures, and their
/// offsets fit.
pub open spec fn lig_caret_list_ok(d: Seq<u8>, off: int, n: int) -> bool {
    &&& fits(d, off, 4)
    &&& be16(d, off + 2) == n
    &&& fits(d, off + 4, 2 * n)
}

/// `r` is ligature `j` of the caret list at `off`, for the glyph `g`.
pub open spec fn lig_record_matches(r: otl_CaretValueRecord, d: Seq<u8>, off: int, j: int, g: Handle) -> bool {
    &&& same_handle(r.glyph, g)
    &&& r.carets.items@ == lig_glyph_carets(d, off + be16(d, off + 4 + 2 * j))
}

/// The ligature carets of the LigCaretList at `lig_caret_offset`, given
/// the glyphs of its coverage: `None` when the list does not fit or does
/// not list exactly as many ligatures as the coverage has glyphs.
pub fn read_lig_carets(data: &[u8], lig_caret_offset: u16, coverage: &Vec<GlyphHandle>) -> (r: Option<otl_LigCaretTable>)
    ensures
        match r {
            Some(t) => lig_caret_list_ok(data@, lig_caret_offset as int, coverage@.len() as int)
                && t.items@.len() == coverage@.len()
                && forall|j: int| 0 <= j < t.items@.len() ==> lig_record_matches(
                    #[trigger] t.items@[j], data@, lig_caret_offset as int, j, coverage@[j]),
            None => !lig_caret_list_ok(data@, lig_caret_offset as int, coverage@.len() as int),
        },
{
    let ghost d = data@;
    let len = data.len();
    let off = lig_caret_offset as usize;
    if len < off + 4 {
        return None;
    }
    let n = read_u16(data, off + 2).unwrap();
    if n as usize != coverage.len() {
        return None;
    }
    if (len - off - 4) / 2 < n as usize {
        return None;
    }
    let mut items: Vec<otl_CaretValueRecord> = Vec::with_capacity(n as usize);
    let mut j: u16 = 0;
    while j < n
        invariant
            j <= n,
            d == data@,
            len == d.len(),
            off == lig_caret_offset,
            n == coverage@.len(),
            off + 4 + 2 * n <= len,
            items@.len() == j,
            forall|k: int| 0 <= k < j ==> lig_record_matches(#[trigger] items@[k], d, off as int, k, coverage@[k]),
        decreases n - j,
    {
        let rel = read_u16(data, off + 4 + 2 * (j as usize)).unwrap();
        let mut rec = readLigCaretRecord(data, off + rel as usize);
        let g = &coverage[j as usize];
        rec.glyph = otfcc_handle_dup(g);
        items.push(rec);
        j = j + 1;
    }
    Some(otl_LigCaretTable { items })
}

/// The offset of the glyph class definition (0: none).
pub open spec fn gdef_class_def_pos(d: Seq<u8>) -> u16 {
    be16(d, 4)
}

/// The offset of the ligature caret list (0: none).
pub open spec fn gdef_lig_caret_pos(d: Seq<u8>) -> u16 {
    be16(d, 8)
}

/// The offset of the coverage of the ligature caret list.
pub open spec fn gdef_coverage_pos(d: Seq<u8>) -> int {
    gdef_lig_caret_pos(d) + be16(d, gdef_lig_caret_pos(d) as int)
}

/// The offset of the mark attachment class definition (0: none).
pub open spec fn gdef_mark_attach_pos(d: Seq<u8>) -> u16 {
    be16(d, 10)
}

/// The GDEF table held in `d` is readable, given the glyphs of its caret
/// list's coverage (`None`: the coverage could not be read): the header
/// fits and, when there is a caret list, it fits and lists as many
/// ligatures as the coverage has glyphs.
pub open spec fn gdef_ok(d: Seq<u8>, coverage: Option<Vec<GlyphHandle>>) -> bool {
    &&& d.len() >= 12
    &&& gdef_lig_caret_pos(d) != 0 ==> match coverage {
        Some(c) => lig_caret_list_ok(d, gdef_lig_caret_pos(d) as int, c@.len() as int),
        None => false,
    }
}

/// `r` is what reading the GDEF table held in `d` gives, given what
/// reading its glyph class definition, its caret list's coverage and its
/// mark attachment class definition gave.
pub open spec fn gdef_read_result(
    r: Option<table_GDEF>,
    d: Seq<u8>,
    glyph_class_def: Option<ClassDef>,
    coverage: Option<Vec<GlyphHandle>>,
    mark_attach_class_def: Option<ClassDef>,
) -> bool {
    match r {
        None => !gdef_ok(d, coverage),
        Some(t) => gdef_ok(d, coverage) && {
            &&& t.glyphClassDef == (if gdef_class_def_pos(d) != 0 { glyph_class_def } else { None })
            &&& t.markAttachClassDef == (if gdef_mark_attach_pos(d) != 0 { mark_attach_class_def } else { None })
            &&& if gdef_lig_caret_pos(d) == 0 {
                t.ligCarets.items@.len() == 0
            } else {
                let c = coverage.unwrap();
                &&& t.ligCarets.items@.len() == c@.len()
                &&& forall|j: int| 0 <= j < t.ligCarets.items@.len() ==> lig_record_matches(
                    #[trigger] t.ligCarets.items@[j], d, gdef_lig_caret_pos(d) as int, j, c@[j])
            }
        },
    }
}

/// Reading a GDEF table: it is read exactly when its 12-byte header fits
/// and, when the caret list offset (bytes 8-9) is non-zero, the coverage
/// was read and the caret list header (at that offset) and its ligature
/// offsets fit and it lists as many ligatures as the coverage has glyphs.
/// The glyph class definition is kept exactly when bytes 4-5 are non-zero,
/// the mark attachment class definition exactly when bytes 10-11 are, and
/// ligature `j` belongs to coverage glyph `j`.
pub proof fn lemma_gdef_read_law(
    r: Option<table_GDEF>,
    d: Seq<u8>,
    glyph_class_def: Option<ClassDef>,
    coverage: Option<Vec<GlyphHandle>>,
    mark_attach_class_def: Option<ClassDef>,
)
    requires
        gdef_read_result(r, d, glyph_class_def, coverage, mark_attach_class_def),
    ensures
        ({
            let lig = be16(d, 8) as int;
            r is Some <==> (d.len() >= 12 && (lig != 0 ==> (coverage matches Some(c) && lig + 4 <= d.len()
                && be16(d, lig + 2) == c@.len() && lig + 4 + 2 * c@.len() <= d.len())))
        }),
        r matches Some(t) ==> t.glyphClassDef == (if be16(d, 4) != 0 { glyph_class_def } else { None }),
        r matches Some(t) ==> t.markAttachClassDef == (if be16(d, 10) != 0 { mark_attach_class_def } else { None }),
        r matches Some(t) ==> (be16(d, 8) == 0 ==> t.ligCarets.items@.len() == 0),
        r matches Some(t) ==> (be16(d, 8) != 0 ==> ({
            let c = coverage.unwrap();
            &&& t.ligCarets.items@.len() == c@.len()
            &&& forall|j: int| 0 <= j < t.ligCarets.items@.len() ==> same_handle((#[trigger] t.ligCarets.items@[j]).glyph, c@[j])
        })),
{
    if r is Some {
        let t = r.unwrap();
        if be16(d, 8) != 0 {
            let c = coverage.unwrap();
            assert forall|j: int| 0 <= j < t.ligCarets.items@.len() implies same_handle((#[trigger] t.ligCarets.items@[j]).glyph, c@[j]) by {
                assert(lig_record_matches(t.ligCarets.items@[j], d, gdef_lig_caret_pos(d) as int, j, c@[j]));
            }
        }
    }
}

/// The GDEF table held in `data`, given what reading its glyph class
/// definition (at `gdef_class_def_pos`), the coverage of its ligature caret
/// list (at `gdef_coverage_pos`) and its mark attachment class definition
/// (at `gdef_mark_attach_pos`) gave: `None` when the header does not fit,
/// or the caret list does not fit or does not match its coverage.  A class
/// definition or caret list whose offset is 0 is absent.
pub fn read_gdef(
    data: &[u8],
    glyph_class_def: Option<ClassDef>,
    coverage: Option<Vec<GlyphHandle>>,
    mark_attach_class_def: Option<ClassDef>,
) -> (r: Option<table_GDEF>)
    ensures
        gdef_read_result(r, data@, glyph_class_def, coverage, mark_attach_class_def),
{
    if data.len() < 12 {
        return None;
    }
    let class_def_offset = read_u16(data, 4).unwrap();
    let lig_caret_offset = read_u16(data, 8).unwrap();
    let mark_attach_offset = read_u16(data, 10).unwrap();
    let ligCarets = if lig_caret_offset != 0 {
        let c = match coverage {
            Some(c) => c,
            None => return None,
        };
        match read_lig_carets(data, lig_caret_offset, &c) {
            Some(t) => t,
            None => return None,
        }
    } else {
        otl_LigCaretTable { items: Vec::new() }
    };
    let glyphClassDef = if class_def_offset != 0 { glyph_class_def } else { None };
    let markAttachClassDef = if mark_attach_offset != 0 { mark_attach_class_def } else { None };
    Some(table_GDEF { glyphClassDef, markAttachClassDef, ligCarets })
}

/// The GDEF table of `packet` (see `read_gdef`); `None` when there is none.
pub fn otfcc_readGDEF(
    packet: &Packet,
    glyph_class_def: Option<ClassDef>,
    coverage: Option<Vec<GlyphHandle>>,
    mark_attach_class_def: Option<ClassDef>,
) -> (r: Option<table_GDEF>)
    ensures
        match table_data(packet.pieces@, TAG_GDEF) {
            None => r is None,
            Some(d) => gdef_read_result(r, d, glyph_class_def, coverage, mark_attach_class_def),
        },
{
    let data = find_table(packet, TAG_GDEF)?;
    read_gdef(data, glyph_class_def, coverage, mark_attach_class_def)
}

// ---------------------------------------------------------------------
// Writing.

/// A caret as written: its format word and its value word.
#[derive(Copy, Clone, PartialEq, Eq, Structural, Debug)]
pub struct CaretValueWords {
    pub format: u16,
    pub value: u16,
}

/// The carets of one ligature as written: their count and each caret.
pub struct LigCaretRecordWords {
    pub count: u16,
    pub carets: Vec<CaretValueWords>,
}

/// The ligature caret list as written: the glyphs of its coverage, the
/// number of ligatures and each ligature's carets.
pub struct LigCaretListWords {
    pub coverage: Vec<GlyphHandle>,
    pub count: u16,
    pub records: Vec<LigCaretRecordWords>,
}

/// A coordinate brought into the range of a signed 16-bit word.
pub open spec fn saturate16(x: i32) -> i16 {
    if x > 32767 {
        32767i16
    } else if x < -32768 {
        -32768i16
    } else {
        x as i16
    }
}

/// The words written for caret `c`: its format, then its point index
/// (format 2) or its coordinate, kept to the 16-bit range.
pub open spec fn caret_words(c: otl_CaretValue) -> CaretValueWords {
    CaretValueWords {
        format: c.format as u16,
        value: if c.format == 2 { c.pointIndex as u16 } else { saturate16(c.coordiante) as u16 },
    }
}

fn saturate_coordinate(x: i32) -> (r: i16)
    ensures
        r == saturate16(x),
{
    if x > 32767 {
        32767i16
    } else if x < -32768 {
        -32768i16
    } else {
        x as i16
    }
}

/// The words written for the carets of `cr`.
pub fn writeLigCaretRec(cr: &otl_CaretValueRecord) -> (r: LigCaretRecordWords)
    requires
        cr.carets.items@.len() <= 65535,
    ensures
        r.count == cr.carets.items@.len(),
        r.carets@.len() == cr.carets.items@.len(),
        forall|k: int| 0 <= k < r.carets@.len() ==> #[trigger] r.carets@[k] == caret_words(cr.carets.items@[k]),
{
    let items = &cr.carets.items;
    let mut carets: Vec<CaretValueWords> = Vec::with_capacity(items.len());
    let mut j: usize = 0;
    while j < items.len()
        invariant
            j <= items@.len(),
            carets@.len() == j,
            forall|k: int| 0 <= k < j ==> #[trigger] carets@[k] == caret_words(items@[k]),
        decreases items@.len() - j,
    {
        let c = items[j];
        let value: u16 = if c.format == 2 { c.pointIndex as u16 } else { saturate_coordinate(c.coordiante) as u16 };
        carets.push(CaretValueWords { format: c.format as u16, value });
        j = j + 1;
    }
    LigCaretRecordWords { count: items.len() as u16, carets }
}

/// What is written for the ligature caret list `lc`: its glyphs, as the
/// coverage, and each ligature's carets, in table order.
pub fn writeLigCarets(lc: &otl_LigCaretTable) -> (r: LigCaretListWords)
    requires
        lc.items@.len() <= 65535,
        forall|k: int| 0 <= k < lc.items@.len() ==> (#[trigger] lc.items@[k]).carets.items@.len() <= 65535,
    ensures
        r.coverage@.len() == lc.items@.len(),
        forall|k: int| 0 <= k < r.coverage@.len() ==> same_handle(#[trigger] r.coverage@[k], lc.items@[k].glyph),
        r.count == lc.items@.len(),
        r.records@.len() == lc.items@.len(),
        forall|k: int| 0 <= k < r.records@.len() ==> {
            &&& (#[trigger] r.records@[k]).count == lc.items@[k].carets.items@.len()
            &&& r.records@[k].carets@.len() == lc.items@[k].carets.items@.len()
            &&& forall|m: int| 0 <= m < r.records@[k].carets@.len()
                ==> #[trigger] r.records@[k].carets@[m] == caret_words(lc.items@[k].carets.items@[m])
        },
{
    let mut coverage: Vec<GlyphHandle> = Vec::with_capacity(lc.items.len());
    let mut j: usize = 0;
    while j < lc.items.len()
        invariant
            j <= lc.items@.len(),
            coverage@.len() == j,
            forall|k: int| 0 <= k < j ==> same_handle(#[trigger] coverage@[k], lc.items@[k].glyph),
        decreases lc.items@.len() - j,
    {
        coverage.push(otfcc_handle_dup(&lc.items[j].glyph));
        j = j + 1;
    }
    let mut records: Vec<LigCaretRecordWords> = Vec::with_capacity(lc.items.len());
    let mut q: usize = 0;
    while q < lc.items.len()
        invariant
            q <= lc.items@.len(),
            forall|k: int| 0 <= k < lc.items@.len() ==> (#[trigger] lc.items@[k]).carets.items@.len() <= 65535,
            records@.len() == q,
            forall|k: int| 0 <= k < q ==> {
                &&& (#[trigger] records@[k]).count == lc.items@[k].carets.items@.len()
                &&& records@[k].carets@.len() == lc.items@[k].carets.items@.len()
                &&& forall|m: int| 0 <= m < records@[k].carets@.len()
                    ==> #[trigger] records@[k].carets@[m] == caret_words(lc.items@[k].carets.items@[m])
            },
        decreases lc.items@.len() - q,
    {
        let rec = writeLigCaretRec(&lc.items[q]);
        records.push(rec);
        q = q + 1;
    }
    LigCaretListWords { coverage, count: lc.items.len() as u16, records }
}

/// What is written for a GDEF table: its version, the class definitions
/// it has (written as class definitions), and its ligature caret list when
/// it has carets.
pub struct GdefLayout<'a> {
    pub version: u32,
    pub glyph_class_def: Option<&'a ClassDef>,
    pub lig_carets: Option<LigCaretListWords>,
    pub mark_attach_class_def: Option<&'a ClassDef>,
}

/// What is written for `gdef` (version 1.0); nothing for no table.
pub fn otfcc_buildGDEF<'a>(gdef: Option<&'a table_GDEF>) -> (r: Option<GdefLayout<'a>>)
    requires
        gdef matches Some(g) ==> g.ligCarets.items@.len() <= 65535
            && forall|k: int| 0 <= k < g.ligCarets.items@.len() ==> (#[trigger] g.ligCarets.items@[k]).carets.items@.len() <= 65535,
    ensures
        match gdef {
            None => r is None,
            Some(g) => r matches Some(l) && {
                &&& l.version == 0x10000
                &&& match g.glyphClassDef {
                    Some(c) => l.glyph_class_def matches Some(lc) && *lc == c,
                    None => l.glyph_class_def is None,
                }
                &&& match g.markAttachClassDef {
                    Some(c) => l.mark_attach_class_def matches Some(lc) && *lc == c,
                    None => l.mark_attach_class_def is None,
                }
                &&& if g.ligCarets.items@.len() == 0 {
                    l.lig_carets is None
                } else {
                    l.lig_carets matches Some(w) && {
                        &&& w.coverage@.len() == g.ligCarets.items@.len()
                        &&& forall|k: int| 0 <= k < w.coverage@.len() ==> same_handle(#[trigger] w.coverage@[k], g.ligCarets.items@[k].glyph)
                        &&& w.count == g.ligCarets.items@.len()
                        &&& w.records@.len() == g.ligCarets.items@.len()
                        &&& forall|k: int| 0 <= k < w.records@.len() ==> {
                            &&& (#[trigger] w.records@[k]).count == g.ligCarets.items@[k].carets.items@.len()
                            &&& w.records@[k].carets@.len() == g.ligCarets.items@[k].carets.items@.len()
                            &&& forall|m: int| 0 <= m < w.records@[k].carets@.len()
                                ==> #[trigger] w.records@[k].carets@[m] == caret_words(g.ligCarets.items@[k].carets.items@[m])
                        }
                    }
                }
            },
        },
{
    let g = match gdef {
        Some(g) => g,
        None => return None,
    };
    let glyph_class_def = match &g.glyphClassDef {
        Some(c) => Some(c),
        None => None,
    };
    let lig_carets = if g.ligCarets.items.len() != 0 { Some(writeLigCarets(&g.ligCarets)) } else { None };
    let mark_attach_class_def = match &g.markAttachClassDef {
        Some(c) => Some(c),
        None => None,
    };
    Some(GdefLayout { version: 0x10000, glyph_class_def, lig_carets, mark_attach_class_def })
}

/// The words written for a caret: its format (sign-extended to 16 bits),
/// then for format 2 its point index, otherwise its coordinate brought into
/// the signed 16-bit range (both as 16-bit words).
pub proof fn lemma_caret_words_law(c: otl_CaretValue)
    ensures
        caret_words(c).format == c.format as u16,
        c.format == 2 ==> caret_words(c).value == c.pointIndex as u16,
        c.format != 2 && c.coordiante > 32767 ==> caret_words(c).value == 0x7fff,
        c.format != 2 && c.coordiante < -32768 ==> caret_words(c).value == 0x8000,
        c.format != 2 && -32768 <= c.coordiante <= 32767 ==> caret_words(c).value == c.coordiante as i16 as u16,
{
    assert((32767i16) as u16 == 0x7fff) by (bit_vector);
    assert((-32768i16) as u16 == 0x8000) by (bit_vector);
}

/// Reading the carets of ligature `j` of the caret list at `off`: as many
/// as the count of its LigGlyph table (at `off` plus the list's offset
/// word `j`) when that table and its offsets fit, none otherwise; caret
/// `m` is read at the LigGlyph table plus its offset word `m`: format 0
/// with no point when its 4 bytes do not fit; otherwise the low byte of
/// its format word as format, then the signed point index for format 2,
/// or the unsigned coordinate word.
pub proof fn lemma_lig_record_law(r: otl_CaretValueRecord, d: Seq<u8>, off: int, j: int, g: Handle)
    requires
        lig_record_matches(r, d, off, j, g),
        0 <= off,
    ensures
        same_handle(r.glyph, g),
        ({
            let lg = off + be16(d, off + 4 + 2 * j);
            let n = be16(d, lg) as int;
            &&& (lg + 2 <= d.len() && lg + 2 + 2 * n <= d.len()) ==> r.carets.items@.len() == n
            &&& !(lg + 2 <= d.len() && lg + 2 + 2 * n <= d.len()) ==> r.carets.items@.len() == 0
            &&& forall|m: int| 0 <= m < r.carets.items@.len() ==> {
                let p = lg + be16(d, lg + 2 + 2 * m);
                let c = #[trigger] r.carets.items@[m];
                &&& !(p + 4 <= d.len()) ==> c.format == 0 && c.coordiante == 0 && c.pointIndex == -1
                &&& p + 4 <= d.len() ==> c.format == low_s8(be16(d, p))
                &&& (p + 4 <= d.len() && c.format == 2) ==> c.pointIndex == s16(be16(d, p + 2)) && c.coordiante == 0
                &&& (p + 4 <= d.len() && c.format != 2) ==> c.coordiante == be16(d, p + 2) as i32 && c.pointIndex == -1
            }
        }),
{
}

} // verus!
