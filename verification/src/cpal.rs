//! The CPAL table: color palettes.
use vstd::prelude::*;
use crate::binio::{be16, be32, fits, read_u16, read_u32};
use crate::packet::{find_table, table_data, Packet};
use crate::tag::TAG_CPAL;

verus! {

/// One color, with the name id of its palette entry (0xffff: none).
#[derive(Copy, Clone, PartialEq, Eq, Structural, Debug)]
pub struct CpalColor {
    pub red: u8,
    pub green: u8,
    pub blue: u8,
    pub alpha: u8,
    pub label: u16,
}

/// The colors of one palette.
pub struct CpalColorSet {
    pub items: Vec<CpalColor>,
}

/// One palette: its colors, its type flags and its name id (0xffff: none).
pub struct CpalPalette {
    pub colorset: CpalColorSet,
    pub type_0: u32,
    pub label: u32,
}

/// The palettes of a table.
pub struct CpalPaletteSet {
    pub items: Vec<CpalPalette>,
}

/// A CPAL table.
pub struct CpalTable {
    pub version: u16,
    pub palettes: CpalPaletteSet,
}

/// Opaque white with no entry name: the color of palette entries that
/// have no color record.
pub open spec fn spec_white() -> CpalColor {
    CpalColor { red: 0xff, green: 0xff, blue: 0xff, alpha: 0xff, label: 0xffff }
}

/// Opaque white with no entry name.
pub fn white() -> (c: CpalColor)
    ensures
        c == spec_white(),
{
    CpalColor { red: 0xff, green: 0xff, blue: 0xff, alpha: 0xff, label: 0xffff }
}

// ---------------------------------------------------------------------
// Byte-level description of the table.

pub open spec fn cpal_version(d: Seq<u8>) -> u16 {
    be16(d, 0)
}

/// The length of the header before the palette index array.
pub open spec fn header_len(d: Seq<u8>) -> int {
    if cpal_version(d) == 0 {
        14
    } else {
        26
    }
}

pub open spec fn num_entries(d: Seq<u8>) -> u16 {
    be16(d, 2)
}

pub open spec fn num_palettes(d: Seq<u8>) -> u16 {
    be16(d, 4)
}

pub open spec fn num_records(d: Seq<u8>) -> u16 {
    be16(d, 6)
}

pub open spec fn records_pos(d: Seq<u8>) -> u32 {
    be32(d, 8)
}

/// The table is readable: the header, the color records and the palette
/// index array all fit.
pub open spec fn cpal_ok(d: Seq<u8>) -> bool {
    &&& fits(d, 0, 2)
    &&& fits(d, 0, header_len(d))
    &&& fits(d, records_pos(d) as int, 4 * num_records(d))
    &&& fits(d, 0, header_len(d) + 2 * num_palettes(d))
}

/// Color record `i` (stored blue, green, red, alpha).
pub open spec fn record_color(d: Seq<u8>, i: int) -> CpalColor {
    let p = records_pos(d) as int + 4 * i;
    CpalColor { red: d[p + 2], green: d[p + 1], blue: d[p], alpha: d[p + 3], label: 0xffff }
}

/// The first color record of palette `k`.
pub open spec fn palette_start(d: Seq<u8>, k: int) -> u16 {
    be16(d, 12 + 2 * k)
}

pub open spec fn types_pos(d: Seq<u8>) -> u32 {
    be32(d, 16 + 2 * num_palettes(d))
}

pub open spec fn labels_pos(d: Seq<u8>) -> u32 {
    be32(d, 20 + 2 * num_palettes(d))
}

pub open spec fn entry_labels_pos(d: Seq<u8>) -> u32 {
    be32(d, 24 + 2 * num_palettes(d))
}

/// The palette type array is present and fits.
pub open spec fn types_ok(d: Seq<u8>) -> bool {
    cpal_version(d) > 0 && types_pos(d) != 0 && types_pos(d) + 4 * num_palettes(d) <= d.len()
}

/// The palette label array is present and fits.
pub open spec fn labels_ok(d: Seq<u8>) -> bool {
    cpal_version(d) > 0 && labels_pos(d) != 0 && labels_pos(d) + 2 * num_palettes(d) <= d.len()
}

/// The palette entry label array is present and fits (its length is
/// checked as 4 bytes per entry); its offset field, the last of the
/// header, must itself be inside the table.
pub open spec fn entry_labels_ok(d: Seq<u8>) -> bool {
    &&& cpal_version(d) > 0
    &&& fits(d, 24 + 2 * num_palettes(d), 4)
    &&& entry_labels_pos(d) != 0
    &&& entry_labels_pos(d) + 4 * num_entries(d) <= d.len()
}

/// The type flags of palette `k` (0 when there is no type array).
pub open spec fn palette_type(d: Seq<u8>, k: int) -> u32 {
    if types_ok(d) {
        be32(d, types_pos(d) + 4 * k)
    } else {
        0
    }
}

/// The name id of palette `k` (0xffff when there is no label array).
pub open spec fn palette_label(d: Seq<u8>, k: int) -> u32 {
    if labels_ok(d) {
        be16(d, labels_pos(d) + 2 * k) as u32
    } else {
        0xffff
    }
}

/// Entry `j` of palette `k`: its color record (white when the palette runs
/// past the records), named by the entry label array when there is one.
pub open spec fn palette_color(d: Seq<u8>, k: int, j: int) -> CpalColor {
    let s = palette_start(d, k) as int;
    let c = if s + j < num_records(d) {
        record_color(d, s + j)
    } else {
        spec_white()
    };
    if entry_labels_ok(d) {
        CpalColor { label: be16(d, entry_labels_pos(d) + 2 * j), ..c }
    } else {
        c
    }
}

/// `p` is palette `k` of the table held in `d`.
pub open spec fn palette_matches(p: CpalPalette, d: Seq<u8>, k: int) -> bool {
    &&& p.type_0 == palette_type(d, k)
    &&& p.label == palette_label(d, k)
    &&& p.colorset.items@.len() == num_entries(d)
    &&& forall|j: int| 0 <= j < p.colorset.items@.len() ==> #[trigger] p.colorset.items@[j] == palette_color(d, k, j)
}

/// `t` holds every palette of the table held in `d`.
pub open spec fn cpal_matches(t: CpalTable, d: Seq<u8>) -> bool {
    &&& t.version == cpal_version(d)
    &&& t.palettes.items@.len() == num_palettes(d)
    &&& forall|k: int| 0 <= k < t.palettes.items@.len() ==> palette_matches(#[trigger] t.palettes.items@[k], d, k)
}

/// Reading a CPAL table: it is readable exactly when its header (14 bytes
/// for version 0, 26 otherwise), its color records (count at bytes 6-7,
/// offset at 8-11, 4 bytes each) and its palette index array (at 12, one
/// word per palette of the count at 4-5) fit.  Then it has the version of
/// bytes 0-1 and one palette per index; each palette has the entry count
/// of bytes 2-3, entry `j` of palette `k` being record `s + j` (`s` the
/// palette's index word), stored blue, green, red, alpha, or opaque white
/// past the records; from version 1 on, the type flags, names and entry
/// names come from the arrays whose offsets follow the index array, when
/// those are non-zero and fit (no type, 0xffff names otherwise).
pub proof fn lemma_cpal_read_law(t: CpalTable, d: Seq<u8>)
    ensures
        cpal_ok(d) <==> ({
            let h = if be16(d, 0) == 0 { 14int } else { 26int };
            &&& h <= d.len()
            &&& be32(d, 8) + 4 * be16(d, 6) <= d.len()
            &&& h + 2 * be16(d, 4) <= d.len()
        }),
        cpal_ok(d) && cpal_matches(t, d) ==> ({
            let np = be16(d, 4) as int;
            let ne = be16(d, 2) as int;
            let rp = be32(d, 8) as int;
            let tp = be32(d, 16 + 2 * np) as int;
            let lp = be32(d, 20 + 2 * np) as int;
            let ep = be32(d, 24 + 2 * np) as int;
            let types = be16(d, 0) > 0 && tp != 0 && tp + 4 * np <= d.len();
            let labels = be16(d, 0) > 0 && lp != 0 && lp + 2 * np <= d.len();
            let entry_labels = be16(d, 0) > 0 && 28 + 2 * np <= d.len() && ep != 0 && ep + 4 * ne <= d.len();
            &&& t.version == be16(d, 0)
            &&& t.palettes.items@.len() == np
            &&& forall|k: int| 0 <= k < np ==> {
                let p = #[trigger] t.palettes.items@[k];
                &&& p.type_0 == (if types { be32(d, tp + 4 * k) } else { 0 })
                &&& p.label == (if labels { be16(d, lp + 2 * k) as u32 } else { 0xffff })
                &&& p.colorset.items@.len() == ne
            }
            &&& forall|k: int, j: int| 0 <= k < np && 0 <= j < ne ==> {
                let c = (#[trigger] t.palettes.items@[k].colorset.items@[j]);
                let r = be16(d, 12 + 2 * k) + j;
                &&& (r < be16(d, 6) ==> c.blue == d[rp + 4 * r] && c.green == d[rp + 4 * r + 1]
                    && c.red == d[rp + 4 * r + 2] && c.alpha == d[rp + 4 * r + 3])
                &&& (r >= be16(d, 6) ==> c.blue == 0xff && c.green == 0xff && c.red == 0xff && c.alpha == 0xff)
                &&& c.label == (if entry_labels { be16(d, ep + 2 * j) } else { 0xffff })
            }
        }),
{
    if cpal_ok(d) && cpal_matches(t, d) {
        let np = be16(d, 4) as int;
        assert forall|k: int| 0 <= k < np implies palette_matches(#[trigger] t.palettes.items@[k], d, k) by {}
        assert forall|k: int, j: int| 0 <= k < np && 0 <= j < be16(d, 2) implies
            #[trigger] t.palettes.items@[k].colorset.items@[j] == palette_color(d, k, j) by {
            assert(palette_matches(t.palettes.items@[k], d, k));
        }
    }
}

// ---------------------------------------------------------------------
// Reading.

fn read_color_records(data: &[u8], pos: usize, n: u16) -> (r: Vec<CpalColor>)
    requires
        pos == records_pos(data@),
        n == num_records(data@),
        pos + 4 * n <= data@.len(),
    ensures
        r@.len() == n,
        forall|i: int| 0 <= i < n ==> #[trigger] r@[i] == record_color(data@, i),
{
    let len = data.len();
    let mut v: Vec<CpalColor> = Vec::with_capacity(n as usize);
    let mut i: u16 = 0;
    while i < n
        invariant
            i <= n,
            len == data@.len(),
            pos == records_pos(data@),
            pos + 4 * n <= data@.len(),
            v@.len() == i,
            forall|k: int| 0 <= k < i ==> #[trigger] v@[k] == record_color(data@, k),
        decreases n - i,
    {
        let p = pos + 4 * (i as usize);
        v.push(CpalColor { red: data[p + 2], green: data[p + 1], blue: data[p], alpha: data[p + 3], label: 0xffff });
        i = i + 1;
    }
    v
}

fn read_palette(
    data: &[u8],
    k: u16,
    colors: &Vec<CpalColor>,
    entry_labels: &Option<Vec<u16>>,
    type_0: u32,
    label: u32,
) -> (r: CpalPalette)
    requires
        cpal_ok(data@),
        k < num_palettes(data@),
        colors@.len() == num_records(data@),
        forall|i: int| 0 <= i < colors@.len() ==> #[trigger] colors@[i] == record_color(data@, i),
        entry_labels_ok(data@) <==> entry_labels is Some,
        entry_labels matches Some(l) ==> l@.len() == num_entries(data@)
            && forall|j: int| 0 <= j < l@.len() ==> #[trigger] l@[j] == be16(data@, entry_labels_pos(data@) + 2 * j),
        type_0 == palette_type(data@, k as int),
        label == palette_label(data@, k as int),
    ensures
        palette_matches(r, data@, k as int),
{
    let n_entries = read_u16(data, 2).unwrap();
    let n_records = colors.len();
    let start = read_u16(data, 12 + 2 * (k as usize)).unwrap();
    let mut items: Vec<CpalColor> = Vec::with_capacity(n_entries as usize);
    let mut j: u16 = 0;
    while j < n_entries
        invariant
            j <= n_entries,
            n_entries == num_entries(data@),
            n_records == colors@.len(),
            colors@.len() == num_records(data@),
            forall|i: int| 0 <= i < colors@.len() ==> #[trigger] colors@[i] == record_color(data@, i),
            start == palette_start(data@, k as int),
            entry_labels_ok(data@) <==> entry_labels is Some,
            entry_labels matches Some(l) ==> l@.len() == num_entries(data@)
                && forall|j: int| 0 <= j < l@.len() ==> #[trigger] l@[j] == be16(data@, entry_labels_pos(data@) + 2 * j),
            items@.len() == j,
            forall|i: int| 0 <= i < j ==> #[trigger] items@[i] == palette_color(data@, k as int, i),
        decreases n_entries - j,
    {
        let idx = start as usize + j as usize;
        let c = if idx < n_records {
            colors[idx]
        } else {
            white()
        };
        let c = match entry_labels {
            Some(l) => CpalColor { label: l[j as usize], ..c },
            None => c,
        };
        items.push(c);
        j = j + 1;
    }
    CpalPalette { colorset: CpalColorSet { items }, type_0, label }
}

/// The palettes of the CPAL table held in `data`; `None` when the header,
/// the color records or the palette index array do not fit.
pub fn read_cpal(data: &[u8]) -> (r: Option<CpalTable>)
    ensures
        match r {
            Some(t) => cpal_ok(data@) && cpal_matches(t, data@),
            None => !cpal_ok(data@),
        },
{
    let ghost d = data@;
    let len = data.len();
    let version = read_u16(data, 0)?;
    let header_length: usize = if version == 0 { 14 } else { 26 };
    if len < header_length {
        return None;
    }
    let n_entries = read_u16(data, 2).unwrap();
    let n_palettes = read_u16(data, 4).unwrap();
    let n_records = read_u16(data, 6).unwrap();
    let first_record = read_u32(data, 8).unwrap() as usize;
    if first_record > len || (len - first_record) / 4 < n_records as usize {
        return None;
    }
    if (len - header_length) / 2 < n_palettes as usize {
        return None;
    }
    assert(cpal_ok(d));
    let colors = read_color_records(data, first_record, n_records);
    let mut types_at: usize = 0;
    let mut labels_at: usize = 0;
    let mut entry_labels: Option<Vec<u16>> = None;
    if version > 0 {
        let tp = read_u32(data, 16 + 2 * n_palettes as usize).unwrap() as usize;
        if tp != 0 && tp <= len && (len - tp) / 4 >= n_palettes as usize {
            types_at = tp;
        }
        let lp = read_u32(data, 20 + 2 * n_palettes as usize).unwrap() as usize;
        if lp != 0 && lp <= len && (len - lp) / 2 >= n_palettes as usize {
            labels_at = lp;
        }
        let ep = match read_u32(data, 24 + 2 * n_palettes as usize) {
            Some(x) => x as usize,
            None => 0,
        };
        if ep != 0 && ep <= len && (len - ep) / 4 >= n_entries as usize {
            let mut l: Vec<u16> = Vec::with_capacity(n_entries as usize);
            let mut j: u16 = 0;
            while j < n_entries
                invariant
                    j <= n_entries,
                    n_entries == num_entries(d),
                    d == data@,
                    len == d.len(),
                    ep == entry_labels_pos(d),
                    ep + 4 * n_entries <= d.len(),
                    l@.len() == j,
                    forall|i: int| 0 <= i < j ==> #[trigger] l@[i] == be16(d, entry_labels_pos(d) + 2 * i),
                decreases n_entries - j,
            {
                l.push(read_u16(data, ep + 2 * (j as usize)).unwrap());
                j = j + 1;
            }
            entry_labels = Some(l);
        }
    }
    assert(types_ok(d) <==> types_at != 0);
    assert(labels_ok(d) <==> labels_at != 0);
    let mut palettes: Vec<CpalPalette> = Vec::with_capacity(n_palettes as usize);
    let mut k: u16 = 0;
    while k < n_palettes
        invariant
            k <= n_palettes,
            d == data@,
            len == d.len(),
            cpal_ok(d),
            n_palettes == num_palettes(d),
            colors@.len() == num_records(d),
            forall|i: int| 0 <= i < colors@.len() ==> #[trigger] colors@[i] == record_color(d, i),
            entry_labels_ok(d) <==> entry_labels is Some,
            entry_labels matches Some(l) ==> l@.len() == num_entries(d)
                && forall|j: int| 0 <= j < l@.len() ==> #[trigger] l@[j] == be16(d, entry_labels_pos(d) + 2 * j),
            types_ok(d) <==> types_at != 0,
            types_ok(d) ==> types_at == types_pos(d),
            labels_ok(d) <==> labels_at != 0,
            labels_ok(d) ==> labels_at == labels_pos(d),
            palettes@.len() == k,
            forall|i: int| 0 <= i < k ==> palette_matches(#[trigger] palettes@[i], d, i),
        decreases n_palettes - k,
    {
        let type_0: u32 = if types_at != 0 {
            read_u32(data, types_at + 4 * (k as usize)).unwrap()
        } else {
            0
        };
        let label: u32 = if labels_at != 0 {
            read_u16(data, labels_at + 2 * (k as usize)).unwrap() as u32
        } else {
            0xffff
        };
        let p = read_palette(data, k, &colors, &entry_labels, type_0, label);
        palettes.push(p);
        k = k + 1;
    }
    Some(CpalTable { version, palettes: CpalPaletteSet { items: palettes } })
}

/// The CPAL table of `packet`: `None` when there is none or it is corrupted.
pub fn otfcc_readCPAL(packet: &Packet) -> (r: Option<CpalTable>)
    ensures
        match table_data(packet.pieces@, TAG_CPAL) {
            Some(d) => match r {
                Some(t) => cpal_ok(d) && cpal_matches(t, d),
                None => !cpal_ok(d),
            },
            None => r is None,
        },
{
    let data = find_table(packet, TAG_CPAL)?;
    read_cpal(data)
}

// ---------------------------------------------------------------------
// The content of a table as written.

/// Some palette of `ps` has non-zero type flags.
pub open spec fn needs_types(ps: Seq<CpalPalette>) -> bool {
    exists|j: int| 0 <= j < ps.len() && (#[trigger] ps[j]).type_0 != 0
}

/// Some palette of `ps` has a name.
pub open spec fn needs_labels(ps: Seq<CpalPalette>) -> bool {
    exists|j: int| 0 <= j < ps.len() && (#[trigger] ps[j]).label != 0xffff
}

/// Some color of `cs` has an entry name.
pub open spec fn needs_entry_labels(cs: Seq<CpalColor>) -> bool {
    exists|j: int| 0 <= j < cs.len() && (#[trigger] cs[j]).label != 0xffff
}

/// `r` is the palette type array of `t`: the type flags of every
/// palette, or nothing when no palette has any.
pub open spec fn palette_type_array(r: Option<Vec<u32>>, t: CpalTable) -> bool {
    match r {
        Some(v) => needs_types(t.palettes.items@) && v@.len() == t.palettes.items@.len()
            && forall|j: int| 0 <= j < v@.len() ==> #[trigger] v@[j] == t.palettes.items@[j].type_0,
        None => !needs_types(t.palettes.items@),
    }
}

/// `r` is the palette label array of `t`: every palette's name id (as
/// written, 16 bits), or nothing when no palette has a name.
pub open spec fn palette_label_array(r: Option<Vec<u16>>, t: CpalTable) -> bool {
    match r {
        Some(v) => needs_labels(t.palettes.items@) && v@.len() == t.palettes.items@.len()
            && forall|j: int| 0 <= j < v@.len() ==> #[trigger] v@[j] == t.palettes.items@[j].label as u16,
        None => !needs_labels(t.palettes.items@),
    }
}

/// `r` is the palette entry label array of `t`, taken from its first
/// palette: every entry's name id, or nothing when no entry has a name.
pub open spec fn entry_label_array(r: Option<Vec<u16>>, t: CpalTable) -> bool {
    match r {
        Some(v) => needs_entry_labels(t.palettes.items@[0].colorset.items@)
            && v@ == t.palettes.items@[0].colorset.items@.map_values(|c: CpalColor| c.label),
        None => !needs_entry_labels(t.palettes.items@[0].colorset.items@),
    }
}

/// The optional arrays written from version 1 on: the type array is
/// written exactly when some palette has non-zero type flags, and then
/// holds every palette's flags; the label array exactly when some palette
/// has a name (not 0xffff), holding every palette's name id in 16 bits;
/// the entry label array exactly when some entry of the first palette has
/// a name, holding every entry's name id.
pub proof fn lemma_palette_arrays_law(ty: Option<Vec<u32>>, lb: Option<Vec<u16>>, el: Option<Vec<u16>>, t: CpalTable)
    requires
        palette_type_array(ty, t),
        palette_label_array(lb, t),
        t.palettes.items@.len() > 0 ==> entry_label_array(el, t),
    ensures
        ({
            let ps = t.palettes.items@;
            &&& ty is Some <==> exists|j: int| 0 <= j < ps.len() && (#[trigger] ps[j]).type_0 != 0
            &&& ty matches Some(v) ==> v@.len() == ps.len() && forall|j: int| 0 <= j < ps.len() ==> #[trigger] v@[j] == ps[j].type_0
            &&& lb is Some <==> exists|j: int| 0 <= j < ps.len() && (#[trigger] ps[j]).label != 0xffff
            &&& lb matches Some(v) ==> v@.len() == ps.len() && forall|j: int| 0 <= j < ps.len() ==> #[trigger] v@[j] == (ps[j].label % 0x10000) as u16
            &&& ps.len() > 0 ==> {
                let cs = ps[0].colorset.items@;
                &&& (el is Some <==> exists|k: int| 0 <= k < cs.len() && (#[trigger] cs[k]).label != 0xffff)
                &&& el matches Some(v) ==> v@.len() == cs.len() && forall|k: int| 0 <= k < cs.len() ==> #[trigger] v@[k] == cs[k].label
            }
        }),
{
    let ps = t.palettes.items@;
    if lb is Some {
        let v = lb.unwrap();
        assert forall|j: int| 0 <= j < ps.len() implies #[trigger] v@[j] == (ps[j].label % 0x10000) as u16 by {
            let x = ps[j].label;
            assert(x as u16 == (x % 0x10000) as u16) by (bit_vector);
        }
    }
    if ps.len() > 0 {
        if el is Some {
            let v = el.unwrap();
            let cs = ps[0].colorset.items@;
            assert forall|k: int| 0 <= k < cs.len() implies #[trigger] v@[k] == cs[k].label by {}
        }
    }
}

/// The palette type array: the type flags of every palette, or nothing
/// when no palette has any.
pub fn buildPaletteType(cpal: &CpalTable) -> (r: Option<Vec<u32>>)
    ensures
        palette_type_array(r, *cpal),
{
    let ps = &cpal.palettes.items;
    let mut v: Vec<u32> = Vec::with_capacity(ps.len());
    let mut needed = false;
    let mut j: usize = 0;
    while j < ps.len()
        invariant
            j <= ps@.len(),
            v@.len() == j,
            forall|k: int| 0 <= k < j ==> #[trigger] v@[k] == ps@[k].type_0,
            needed <==> exists|k: int| 0 <= k < j && (#[trigger] ps@[k]).type_0 != 0,
        decreases ps@.len() - j,
    {
        if ps[j].type_0 != 0 {
            needed = true;
        }
        v.push(ps[j].type_0);
        j = j + 1;
    }
    if needed {
        Some(v)
    } else {
        None
    }
}

/// The palette label array: every palette's name id (as written, 16 bits),
/// or nothing when no palette has a name.
pub fn buildPaletteLabel(cpal: &CpalTable) -> (r: Option<Vec<u16>>)
    ensures
        palette_label_array(r, *cpal),
{
    let ps = &cpal.palettes.items;
    let mut v: Vec<u16> = Vec::with_capacity(ps.len());
    let mut needed = false;
    let mut j: usize = 0;
    while j < ps.len()
        invariant
            j <= ps@.len(),
            v@.len() == j,
            forall|k: int| 0 <= k < j ==> #[trigger] v@[k] == ps@[k].label as u16,
            needed <==> exists|k: int| 0 <= k < j && (#[trigger] ps@[k]).label != 0xffff,
        decreases ps@.len() - j,
    {
        if ps[j].label != 0xffff {
            needed = true;
        }
        v.push(#[verifier::truncate] (ps[j].label as u16));
        j = j + 1;
    }
    if needed {
        Some(v)
    } else {
        None
    }
}

/// The palette entry label array, taken from the first palette: every
/// entry's name id, or nothing when no entry of it has a name.
pub fn buildPaletteEntryLabel(cpal: &CpalTable) -> (r: Option<Vec<u16>>)
    requires
        cpal.palettes.items@.len() > 0,
    ensures
        entry_label_array(r, *cpal),
{
    let cs = &cpal.palettes.items[0].colorset.items;
    let mut v: Vec<u16> = Vec::with_capacity(cs.len());
    let mut needed = false;
    let mut j: usize = 0;
    while j < cs.len()
        invariant
            j <= cs@.len(),
            v@ =~= cs@.subrange(0, j as int).map_values(|c: CpalColor| c.label),
            needed <==> exists|k: int| 0 <= k < j && (#[trigger] cs@[k]).label != 0xffff,
        decreases cs@.len() - j,
    {
        if cs[j].label != 0xffff {
            needed = true;
        }
        v.push(cs[j].label);
        j = j + 1;
    }
    assert(cs@.subrange(0, cs@.len() as int) =~= cs@);
    if needed {
        Some(v)
    } else {
        None
    }
}

/// The number of palettes as written (16 bits).
pub open spec fn written_palettes(t: CpalTable) -> int {
    (t.palettes.items@.len() as int) % 0x10000
}

/// The number of entries per palette as written: the first palette's size
/// (16 bits).
pub open spec fn written_entries(t: CpalTable) -> int {
    (t.palettes.items@[0].colorset.items@.len() as int) % 0x10000
}

/// Entry `k` of palette `j` as written: the palette's color, or white
/// past its end.
pub open spec fn written_color(t: CpalTable, j: int, k: int) -> CpalColor {
    let cs = t.palettes.items@[j].colorset.items@;
    if k < cs.len() % 0x10000 {
        cs[k]
    } else {
        spec_white()
    }
}

/// The color record array written for the first `n` records of `t`
/// (record `i` is entry `i % e` of palette `i / e`, stored blue, green,
/// red, alpha).
pub open spec fn color_record_bytes(t: CpalTable, n: int) -> Seq<u8>
    decreases n,
{
    if n <= 0 {
        Seq::empty()
    } else {
        let e = written_entries(t);
        let c = written_color(t, (n - 1) / e, (n - 1) % e);
        color_record_bytes(t, n - 1) + seq![c.blue, c.green, c.red, c.alpha]
    }
}

/// The color record array of `t`: each written palette padded (with white)
/// or cut to the first palette's size.
pub fn build_color_records(cpal: &CpalTable) -> (r: Vec<u8>)
    requires
        cpal.palettes.items@.len() > 0,
    ensures
        r@ == color_record_bytes(*cpal, written_palettes(*cpal) * written_entries(*cpal)),
{
    let num_palettes = #[verifier::truncate] (cpal.palettes.items.len() as u16);
    let num_entries = #[verifier::truncate] (cpal.palettes.items[0].colorset.items.len() as u16);
    proof {
        crate::binio::lemma_u16_trunc(cpal.palettes.items@.len() as usize);
        crate::binio::lemma_u16_trunc(cpal.palettes.items@[0].colorset.items@.len() as usize);
    }
    let mut out: Vec<u8> = Vec::new();
    let mut j: u16 = 0;
    while j < num_palettes
        invariant
            j <= num_palettes,
            num_palettes == written_palettes(*cpal),
            num_entries == written_entries(*cpal),
            num_palettes <= cpal.palettes.items@.len(),
            out@ == color_record_bytes(*cpal, j * num_entries),
        decreases num_palettes - j,
    {
        let palette = &cpal.palettes.items[j as usize];
        let total = #[verifier::truncate] (palette.colorset.items.len() as u16);
        proof {
            crate::binio::lemma_u16_trunc(palette.colorset.items@.len() as usize);
        }
        let mut k: u16 = 0;
        while k < num_entries
            invariant
                k <= num_entries,
                j < num_palettes,
                num_palettes <= cpal.palettes.items@.len(),
                num_entries == written_entries(*cpal),
                *palette == cpal.palettes.items@[j as int],
                total == palette.colorset.items@.len() % 0x10000,
                out@ == color_record_bytes(*cpal, j * num_entries + k),
            decreases num_entries - k,
        {
            let c = if k < total {
                palette.colorset.items[k as usize]
            } else {
                white()
            };
            proof {
                let n = j * num_entries + k;
                assert((n + 1 - 1) / (num_entries as int) == j as int && (n + 1 - 1) % (num_entries as int) == k as int) by (nonlinear_arith)
                    requires
                        n == j * num_entries + k,
                        0 <= k < num_entries,
                        0 <= j;
                assert(c == written_color(*cpal, j as int, k as int));
            }
            out.push(c.blue);
            out.push(c.green);
            out.push(c.red);
            out.push(c.alpha);
            k = k + 1;
            assert(out@ =~= color_record_bytes(*cpal, j * num_entries + k));
        }
        assert(j * num_entries + num_entries == (j + 1) * num_entries) by (nonlinear_arith);
        j = j + 1;
    }
    out
}

/// What is written for a table: the header fields, the color record
/// array, the index of each palette's first record and, from version 1
/// on, the three optional arrays.
pub struct CpalLayout {
    pub version: u16,
    pub num_entries: u16,
    pub num_palettes: u16,
    pub num_color_records: u16,
    pub color_records: Vec<u8>,
    pub first_records: Vec<u16>,
    pub types: Option<Vec<u32>>,
    pub labels: Option<Vec<u16>>,
    pub entry_labels: Option<Vec<u16>>,
}

/// What is written for `cpal`: nothing for no table or a table without
/// palettes.  Every palette gets as many records as the first one has
/// colors, and starts at that many times its index (16-bit fields).
pub fn otfcc_buildCPAL(cpal: Option<&CpalTable>) -> (r: Option<CpalLayout>)
    ensures
        match cpal {
            None => r is None,
            Some(t) => if t.palettes.items@.len() == 0 {
                r is None
            } else {
                r matches Some(l) && {
                    &&& l.version == t.version
                    &&& l.num_palettes == written_palettes(*t)
                    &&& l.num_entries == written_entries(*t)
                    &&& l.num_color_records == (written_palettes(*t) * written_entries(*t)) % 0x10000
                    &&& l.color_records@ == color_record_bytes(*t, written_palettes(*t) * written_entries(*t))
                    &&& l.first_records@.len() == written_palettes(*t)
                    &&& forall|j: int| 0 <= j < l.first_records@.len()
                        ==> #[trigger] l.first_records@[j] == (written_entries(*t) * j) % 0x10000
                    &&& if t.version > 0 {
                        &&& palette_type_array(l.types, *t)
                        &&& palette_label_array(l.labels, *t)
                        &&& entry_label_array(l.entry_labels, *t)
                    } else {
                        &&& l.types is None
                        &&& l.labels is None
                        &&& l.entry_labels is None
                    }
                }
            },
        },
{
    let t = match cpal {
        Some(t) => t,
        None => return None,
    };
    if t.palettes.items.len() == 0 {
        return None;
    }
    let num_palettes = #[verifier::truncate] (t.palettes.items.len() as u16);
    let num_entries = #[verifier::truncate] (t.palettes.items[0].colorset.items.len() as u16);
    proof {
        crate::binio::lemma_u16_trunc(t.palettes.items@.len() as usize);
        crate::binio::lemma_u16_trunc(t.palettes.items@[0].colorset.items@.len() as usize);
    }
    assert(num_palettes as u32 * num_entries as u32 <= 0xffff * 0xffff) by (nonlinear_arith)
        requires
            num_palettes <= 0xffff,
            num_entries <= 0xffff;
    let product: u32 = num_palettes as u32 * num_entries as u32;
    let num_color_records = #[verifier::truncate] (product as u16);
    proof {
        crate::binio::lemma_u16_trunc(product as usize);
    }
    let color_records = build_color_records(t);
    let mut first_records: Vec<u16> = Vec::with_capacity(num_palettes as usize);
    let mut j: u16 = 0;
    while j < num_palettes
        invariant
            j <= num_palettes,
            num_palettes == written_palettes(*t),
            num_entries == written_entries(*t),
            first_records@.len() == j,
            forall|k: int| 0 <= k < j ==> #[trigger] first_records@[k] == (num_entries * k) % 0x10000,
        decreases num_palettes - j,
    {
        assert(num_entries as u32 * j as u32 <= 0xffff * 0xffff) by (nonlinear_arith)
            requires
                num_entries <= 0xffff,
                j <= 0xffff;
        let at: u32 = num_entries as u32 * j as u32;
        proof {
            crate::binio::lemma_u16_trunc(at as usize);
        }
        first_records.push(#[verifier::truncate] (at as u16));
        j = j + 1;
    }
    let (types, labels, entry_labels) = if t.version > 0 {
        (buildPaletteType(t), buildPaletteLabel(t), buildPaletteEntryLabel(t))
    } else {
        (None, None, None)
    };
    Some(CpalLayout {
        version: t.version,
        num_entries,
        num_palettes,
        num_color_records,
        color_records,
        first_records,
        types,
        labels,
        entry_labels,
    })
}

proof fn lemma_color_record_bytes_at(t: CpalTable, n: int, i: int)
    requires
        0 <= i < n,
    ensures
        color_record_bytes(t, n).len() == 4 * n,
        color_record_bytes(t, n).subrange(4 * i, 4 * i + 4) == ({
            let c = written_color(t, i / written_entries(t), i % written_entries(t));
            seq![c.blue, c.green, c.red, c.alpha]
        }),
    decreases n,
{
    lemma_color_record_bytes_len(t, n - 1);
    let whole = color_record_bytes(t, n);
    let prev = color_record_bytes(t, n - 1);
    if i < n - 1 {
        lemma_color_record_bytes_at(t, n - 1, i);
        assert(whole.subrange(4 * i, 4 * i + 4) =~= prev.subrange(4 * i, 4 * i + 4));
    } else {
        let c = written_color(t, i / written_entries(t), i % written_entries(t));
        assert(whole.subrange(4 * i, 4 * i + 4) =~= seq![c.blue, c.green, c.red, c.alpha]);
    }
}

proof fn lemma_color_record_bytes_len(t: CpalTable, n: int)
    requires
        0 <= n,
    ensures
        color_record_bytes(t, n).len() == 4 * n,
    decreases n,
{
    if n > 0 {
        lemma_color_record_bytes_len(t, n - 1);
    }
}

/// The four bytes of record `j * ne + k` of the color record array written
/// for `t` (`ne` the first palette's 16-bit size).
pub open spec fn written_record(t: CpalTable, j: int, k: int) -> Seq<u8> {
    let b = color_record_bytes(t, written_palettes(t) * written_entries(t));
    let at = 4 * (j * written_entries(t) + k);
    b.subrange(at, at + 4)
}

/// The color record array written for a table: for every palette `j` (of
/// as many as its 16-bit palette count) and entry `k` (of as many as the
/// first palette's 16-bit size), record `j * ne + k` holds the palette's
/// entry `k`, or opaque white past the palette's end, stored blue, green,
/// red, alpha; there are no other records.
pub proof fn lemma_color_records_law(t: CpalTable)
    requires
        t.palettes.items@.len() > 0,
    ensures
        color_record_bytes(t, written_palettes(t) * written_entries(t)).len()
            == 4 * (t.palettes.items@.len() % 0x10000) * (t.palettes.items@[0].colorset.items@.len() % 0x10000),
        forall|j: int, k: int| 0 <= j < t.palettes.items@.len() % 0x10000 && 0 <= k < t.palettes.items@[0].colorset.items@.len() % 0x10000
            ==> #[trigger] written_record(t, j, k) == ({
                let cs = t.palettes.items@[j].colorset.items@;
                let c = if k < cs.len() % 0x10000 { cs[k] } else { spec_white() };
                seq![c.blue, c.green, c.red, c.alpha]
            }),
{
    let np = written_palettes(t);
    let ne = written_entries(t);
    let n = np * ne;
    assert(0 <= np && 0 <= ne);
    assert(0 <= n) by (nonlinear_arith)
        requires
            0 <= np,
            0 <= ne,
            n == np * ne;
    lemma_color_record_bytes_len(t, n);
    assert(4 * n == 4 * np * ne) by (nonlinear_arith)
        requires
            n == np * ne;
    assert forall|j: int, k: int| 0 <= j < np && 0 <= k < ne implies #[trigger] written_record(t, j, k) == ({
        let cs = t.palettes.items@[j].colorset.items@;
        let c = if k < cs.len() % 0x10000 { cs[k] } else { spec_white() };
        seq![c.blue, c.green, c.red, c.alpha]
    }) by {
        let i = j * ne + k;
        assert(0 <= i < n && i / ne == j && i % ne == k) by (nonlinear_arith)
            requires
                0 <= j < np,
                0 <= k < ne,
                n == np * ne,
                i == j * ne + k;
        lemma_color_record_bytes_at(t, n, i);
    }
}

} // verus!
