//! The BASE table: baseline coordinates per script, for each axis.
use vstd::prelude::*;
use crate::binio::{add_pos, be16, be32, fits, read_i16, read_u16, read_u32, s16};
use crate::packet::{find_table, table_data, Packet};
use crate::tag::TAG_BASE;

verus! {

/// One baseline of a script: its tag and its coordinate in font units.
#[derive(Copy, Clone, PartialEq, Eq, Structural, Debug)]
pub struct BaseValue {
    pub tag: u32,
    pub coordinate: i16,
}

/// The baselines of one script.
pub struct BaseScriptEntry {
    pub tag: u32,
    pub default_baseline_tag: u32,
    pub base_values: Vec<BaseValue>,
}

/// The baseline data of one axis (horizontal or vertical).
pub struct BaseAxis {
    pub entries: Vec<BaseScriptEntry>,
}

/// A BASE table: each axis is present or absent.
pub struct BaseTable {
    pub horizontal: Option<Box<BaseAxis>>,
    pub vertical: Option<Box<BaseAxis>>,
}

/// The sorted set of baseline tags used on one axis.
pub struct BaseTagList {
    pub items: Vec<u32>,
}

pub type otl_BaseValue = BaseValue;

pub type otl_BaseScriptEntry = BaseScriptEntry;

pub type otl_BaseAxis = BaseAxis;

pub type table_BASE = BaseTable;

pub type base_TagList = BaseTagList;

/// The data is too short for the header it must hold.
#[derive(Copy, Clone, PartialEq, Eq, Structural, Debug)]
pub enum ReadError {
    OutOfBounds,
}

// ---------------------------------------------------------------------
// Byte-level description of the table.

/// The coordinate of the BaseCoord record at `off` (format-agnostic: the
/// word after the format field), or 0 when the record does not fit.
pub open spec fn base_value(d: Seq<u8>, off: int) -> i16 {
    if fits(d, off, 4) {
        s16(be16(d, off + 2))
    } else {
        0
    }
}

/// Where the BaseValues table of the BaseScript table at `off` starts.
pub open spec fn values_pos(d: Seq<u8>, off: int) -> int {
    off + be16(d, off)
}

/// The BaseScript table at `off` has a BaseValues table with exactly `n`
/// coordinate offsets, all inside the data.
pub open spec fn base_script_ok(d: Seq<u8>, off: int, n: int) -> bool {
    &&& fits(d, off, 2)
    &&& be16(d, off) != 0
    &&& fits(d, values_pos(d, off), 4)
    &&& be16(d, values_pos(d, off) + 2) == n
    &&& fits(d, values_pos(d, off) + 4, 2 * n)
}

/// The coordinate of the `j`-th baseline of the BaseValues table at `bvo`.
pub open spec fn base_coord(d: Seq<u8>, bvo: int, j: int) -> i16 {
    let vo = be16(d, bvo + 4 + 2 * j);
    if vo != 0 {
        base_value(d, bvo + vo)
    } else {
        0
    }
}

/// The default baseline tag read from the BaseScript table at `off`.
pub open spec fn base_script_default(d: Seq<u8>, off: int, tags: Seq<u32>, n: u16) -> u32 {
    if base_script_ok(d, off, n as int) {
        tags[(be16(d, values_pos(d, off)) % n) as int]
    } else {
        0
    }
}

/// The baselines read from the BaseScript table at `off`.
pub open spec fn base_script_values(d: Seq<u8>, off: int, tags: Seq<u32>, n: u16) -> Seq<BaseValue> {
    if base_script_ok(d, off, n as int) {
        Seq::new(
            n as nat,
            |j: int| BaseValue { tag: tags[j], coordinate: base_coord(d, values_pos(d, off), j) },
        )
    } else {
        Seq::empty()
    }
}

/// Where the BaseTagList of the Axis table at `off` starts.
pub open spec fn tag_list_pos(d: Seq<u8>, off: int) -> int {
    off + be16(d, off)
}

/// Where the BaseScriptList of the Axis table at `off` starts.
pub open spec fn script_list_pos(d: Seq<u8>, off: int) -> int {
    off + be16(d, off + 2)
}

/// The number of baseline tags of the Axis table at `off`.
pub open spec fn axis_tag_count(d: Seq<u8>, off: int) -> u16 {
    be16(d, tag_list_pos(d, off))
}

/// The number of scripts of the Axis table at `off`.
pub open spec fn axis_script_count(d: Seq<u8>, off: int) -> u16 {
    be16(d, script_list_pos(d, off))
}

/// The baseline tags of the Axis table at `off`.
pub open spec fn axis_tags(d: Seq<u8>, off: int) -> Seq<u32> {
    Seq::new(
        axis_tag_count(d, off) as nat,
        |i: int| be32(d, tag_list_pos(d, off) + 2 + 4 * i),
    )
}

/// The Axis table at `off` is readable: both lists are present, there is
/// at least one baseline tag, and both lists fit inside the data.
pub open spec fn axis_ok(d: Seq<u8>, off: int) -> bool {
    &&& fits(d, off, 4)
    &&& be16(d, off) != 0
    &&& be16(d, off + 2) != 0
    &&& fits(d, tag_list_pos(d, off), 2)
    &&& axis_tag_count(d, off) != 0
    &&& fits(d, tag_list_pos(d, off) + 2, 4 * axis_tag_count(d, off))
    &&& fits(d, script_list_pos(d, off), 2)
    &&& fits(d, script_list_pos(d, off) + 2, 6 * axis_script_count(d, off))
}

/// Where the `j`-th BaseScriptRecord of the Axis table at `off` starts.
pub open spec fn script_record_pos(d: Seq<u8>, off: int, j: int) -> int {
    script_list_pos(d, off) + 2 + 6 * j
}

/// `e` is the `j`-th script of the Axis table at `off`.
pub open spec fn script_entry_matches(e: BaseScriptEntry, d: Seq<u8>, off: int, j: int) -> bool {
    let rec = script_record_pos(d, off, j);
    let rel = be16(d, rec + 4);
    &&& e.tag == be32(d, rec)
    &&& if rel != 0 {
        let so = script_list_pos(d, off) + rel;
        &&& e.default_baseline_tag == base_script_default(d, so, axis_tags(d, off), axis_tag_count(d, off))
        &&& e.base_values@ == base_script_values(d, so, axis_tags(d, off), axis_tag_count(d, off))
    } else {
        &&& e.default_baseline_tag == 0
        &&& e.base_values@.len() == 0
    }
}

/// `a` holds every script of the Axis table at `off`, in order.
pub open spec fn axis_matches(a: BaseAxis, d: Seq<u8>, off: int) -> bool {
    &&& a.entries@.len() == axis_script_count(d, off)
    &&& forall|j: int| 0 <= j < a.entries@.len() ==> script_entry_matches(#[trigger] a.entries@[j], d, off, j)
}

/// `r` is what reading the Axis table at `off` gives.
pub open spec fn axis_result(r: Option<Box<BaseAxis>>, d: Seq<u8>, off: int) -> bool {
    match r {
        Some(a) => axis_ok(d, off) && axis_matches(*a, d, off),
        None => !axis_ok(d, off),
    }
}

/// `r` is what reading an axis whose offset field (from the start of the
/// table) is `rel` gives: nothing when the offset is zero.
pub open spec fn axis_field_result(r: Option<Box<BaseAxis>>, d: Seq<u8>, rel: u16) -> bool {
    if rel == 0 {
        r is None
    } else {
        axis_result(r, d, rel as int)
    }
}

// ---------------------------------------------------------------------
// Readers.

/// The coordinate of the BaseCoord record at `offset`, or 0 when it does
/// not fit in `data`.
pub fn read_base_value(data: &[u8], offset: usize) -> (r: i16)
    ensures
        r == base_value(data@, offset as int),
{
    let dlen = data.len();
    match add_pos(offset, 2) {
        Some(p) => {
            if offset <= data.len() && data.len() - offset >= 4 {
                read_i16(data, p).unwrap()
            } else {
                0
            }
        },
        None => 0,
    }
}

/// The default baseline tag and the baselines of the BaseScript table at
/// `offset`; `(0, [])` when the table is absent, does not fit, or does not
/// list exactly `n_base_tags` coordinates.
pub fn read_base_script(data: &[u8], offset: usize, base_tag_list: &[u32], n_base_tags: u16) -> (r: (u32, Vec<BaseValue>))
    requires
        n_base_tags > 0,
        base_tag_list@.len() >= n_base_tags,
    ensures
        r.0 == base_script_default(data@, offset as int, base_tag_list@, n_base_tags),
        r.1@ == base_script_values(data@, offset as int, base_tag_list@, n_base_tags),
{
    let ghost d = data@;
    let dlen = data.len();
    let base_values_rel = match read_u16(data, offset) {
        Some(x) => x,
        None => return (0, Vec::new()),
    };
    if base_values_rel == 0 {
        return (0, Vec::new());
    }
    let base_values_offset = match add_pos(offset, base_values_rel as usize) {
        Some(p) => p,
        None => return (0, Vec::new()),
    };
    assert(base_values_offset == values_pos(d, offset as int));
    let default_index_raw = match read_u16(data, base_values_offset) {
        Some(x) => x,
        None => return (0, Vec::new()),
    };
    let count_pos = match add_pos(base_values_offset, 2) {
        Some(p) => p,
        None => return (0, Vec::new()),
    };
    let base_values_count = match read_u16(data, count_pos) {
        Some(x) => x,
        None => return (0, Vec::new()),
    };
    if base_values_count != n_base_tags {
        return (0, Vec::new());
    }
    let first = count_pos + 2;
    if first > data.len() || (data.len() - first) / 2 < base_values_count as usize {
        return (0, Vec::new());
    }
    assert(base_script_ok(d, offset as int, n_base_tags as int));
    let default_index = (default_index_raw % n_base_tags) as usize;
    let default_baseline_tag: u32 = base_tag_list[default_index];
    let mut base_values: Vec<BaseValue> = Vec::with_capacity(base_values_count as usize);
    let mut j: u16 = 0;
    while j < base_values_count
        invariant
            j <= base_values_count,
            base_values_count == n_base_tags,
            base_tag_list@.len() >= n_base_tags,
            first == base_values_offset + 4,
            base_values_offset == values_pos(d, offset as int),
            d == data@,
            dlen == d.len(),
            first + 2 * base_values_count <= d.len(),
            base_values@ =~= Seq::new(
                j as nat,
                |k: int| BaseValue { tag: base_tag_list@[k], coordinate: base_coord(d, base_values_offset as int, k) },
            ),
        decreases base_values_count - j,
    {
        let tag = base_tag_list[j as usize];
        let val_offset = read_u16(data, first + 2 * (j as usize)).unwrap();
        let coordinate: i16 = if val_offset != 0 {
            match add_pos(base_values_offset, val_offset as usize) {
                Some(vp) => read_base_value(data, vp),
                None => 0,
            }
        } else {
            0
        };
        base_values.push(BaseValue { tag, coordinate });
        j = j + 1;
    }
    (default_baseline_tag, base_values)
}

/// The scripts of the Axis table at `offset`; `None` when either list is
/// absent, the tag list is empty, or either list does not fit.
pub fn read_axis(data: &[u8], offset: usize) -> (r: Option<Box<BaseAxis>>)
    ensures
        axis_result(r, data@, offset as int),
{
    let ghost d = data@;
    let dlen = data.len();
    let base_tag_list_rel = read_u16(data, offset)?;
    let p2 = add_pos(offset, 2)?;
    let base_script_list_rel = read_u16(data, p2)?;
    if base_tag_list_rel == 0 || base_script_list_rel == 0 {
        return None;
    }
    let base_tag_list_offset = add_pos(offset, base_tag_list_rel as usize)?;
    let n_base_tags = read_u16(data, base_tag_list_offset)?;
    if n_base_tags == 0 {
        return None;
    }
    let tags_first = base_tag_list_offset + 2;
    if tags_first > data.len() || (data.len() - tags_first) / 4 < n_base_tags as usize {
        return None;
    }
    let mut base_tag_list: Vec<u32> = Vec::with_capacity(n_base_tags as usize);
    let mut i: u16 = 0;
    while i < n_base_tags
        invariant
            i <= n_base_tags,
            d == data@,
            dlen == d.len(),
            n_base_tags == axis_tag_count(d, offset as int),
            tags_first == tag_list_pos(d, offset as int) + 2,
            tags_first + 4 * n_base_tags <= d.len(),
            base_tag_list@ =~= axis_tags(d, offset as int).subrange(0, i as int),
        decreases n_base_tags - i,
    {
        base_tag_list.push(read_u32(data, tags_first + 4 * (i as usize)).unwrap());
        i = i + 1;
    }
    assert(base_tag_list@ =~= axis_tags(d, offset as int));
    let base_script_list_offset = add_pos(offset, base_script_list_rel as usize)?;
    let n_base_scripts = read_u16(data, base_script_list_offset)?;
    let recs_first = base_script_list_offset + 2;
    if recs_first > data.len() || (data.len() - recs_first) / 6 < n_base_scripts as usize {
        return None;
    }
    assert(axis_ok(d, offset as int));
    let mut entries: Vec<BaseScriptEntry> = Vec::with_capacity(n_base_scripts as usize);
    let mut j: u16 = 0;
    while j < n_base_scripts
        invariant
            j <= n_base_scripts,
            d == data@,
            dlen == d.len(),
            axis_ok(d, offset as int),
            n_base_tags == axis_tag_count(d, offset as int),
            base_tag_list@ == axis_tags(d, offset as int),
            n_base_scripts == axis_script_count(d, offset as int),
            base_script_list_offset == script_list_pos(d, offset as int),
            recs_first == base_script_list_offset + 2,
            recs_first + 6 * n_base_scripts <= d.len(),
            entries@.len() == j,
            forall|k: int| 0 <= k < j ==> script_entry_matches(#[trigger] entries@[k], d, offset as int, k),
        decreases n_base_scripts - j,
    {
        let rec = recs_first + 6 * (j as usize);
        let tag = read_u32(data, rec).unwrap();
        let base_script_rel = read_u16(data, rec + 4).unwrap();
        let entry = if base_script_rel != 0 {
            let (default_baseline_tag, base_values) = match add_pos(
                base_script_list_offset,
                base_script_rel as usize,
            ) {
                Some(so) => read_base_script(data, so, base_tag_list.as_slice(), n_base_tags),
                None => (0, Vec::new()),
            };
            BaseScriptEntry { tag, default_baseline_tag, base_values }
        } else {
            BaseScriptEntry { tag, default_baseline_tag: 0, base_values: Vec::new() }
        };
        assert(script_entry_matches(entry, d, offset as int, j as int));
        entries.push(entry);
        j = j + 1;
    }
    Some(Box::new(BaseAxis { entries }))
}

/// Both axes of a BASE table; an error when the 8-byte header does not fit.
pub fn parse_base(data: &[u8]) -> (r: Result<(Option<Box<BaseAxis>>, Option<Box<BaseAxis>>), ReadError>)
    ensures
        match r {
            Ok((h, v)) => fits(data@, 0, 8)
                && axis_field_result(h, data@, be16(data@, 4))
                && axis_field_result(v, data@, be16(data@, 6)),
            Err(_) => !fits(data@, 0, 8),
        },
{
    if data.len() < 8 {
        return Err(ReadError::OutOfBounds);
    }
    let offset_h = read_u16(data, 4).unwrap();
    let offset_v = read_u16(data, 6).unwrap();
    let horizontal = if offset_h != 0 { read_axis(data, offset_h as usize) } else { None };
    let vertical = if offset_v != 0 { read_axis(data, offset_v as usize) } else { None };
    Ok((horizontal, vertical))
}

/// `r` is what reading the BASE table held in `d` gives.
pub open spec fn base_table_result(r: Option<Box<BaseTable>>, d: Seq<u8>) -> bool {
    match r {
        Some(t) => fits(d, 0, 8)
            && axis_field_result(t.horizontal, d, be16(d, 4))
            && axis_field_result(t.vertical, d, be16(d, 6)),
        None => !fits(d, 0, 8),
    }
}

/// The BASE table of `packet`: `None` when the font has no BASE table or
/// its header is truncated.
pub fn otfcc_read_base(packet: &Packet) -> (r: Option<Box<BaseTable>>)
    ensures
        match table_data(packet.pieces@, TAG_BASE) {
            Some(d) => base_table_result(r, d),
            None => r is None,
        },
{
    let data = find_table(packet, TAG_BASE)?;
    match parse_base(data) {
        Ok((horizontal, vertical)) => Some(Box::new(BaseTable { horizontal, vertical })),
        Err(_) => None,
    }
}

// ---------------------------------------------------------------------
// The content of an axis as written: its tag list and script records.

/// `s` is strictly increasing.
pub open spec fn strictly_sorted(s: Seq<u32>) -> bool {
    forall|i: int, j: int| 0 <= i < j < s.len() ==> s[i] < s[j]
}

/// Entry `e` uses tag `x`: as its (non-zero) default baseline, or as the
/// tag of one of its baselines.
pub open spec fn entry_uses_tag(e: BaseScriptEntry, x: u32) -> bool {
    ||| (e.default_baseline_tag != 0 && e.default_baseline_tag == x)
    ||| exists|k: int| 0 <= k < e.base_values@.len() && (#[trigger] e.base_values@[k]).tag == x
}

/// Some entry among the first `n` of `es` uses tag `x`.
pub open spec fn entries_use_tag(es: Seq<BaseScriptEntry>, n: int, x: u32) -> bool {
    exists|j: int| 0 <= j < n && entry_uses_tag(#[trigger] es[j], x)
}

/// The index of the first occurrence of `x` in `s` at or after `i`, or -1.
pub open spec fn first_index_from(s: Seq<u32>, x: u32, i: int) -> int
    decreases s.len() - i,
{
    if i < 0 || i >= s.len() {
        -1
    } else if s[i] == x {
        i
    } else {
        first_index_from(s, x, i + 1)
    }
}

/// The coordinate of the first baseline of `vs` at or after `k` tagged `x`,
/// or 0 when there is none.
pub open spec fn coordinate_for_from(vs: Seq<BaseValue>, x: u32, k: int) -> i16
    decreases vs.len() - k,
{
    if k < 0 || k >= vs.len() {
        0
    } else if vs[k].tag == x {
        vs[k].coordinate
    } else {
        coordinate_for_from(vs, x, k + 1)
    }
}

/// The script record written for one script: its tag, the index of its
/// default baseline in the axis tag list, and one coordinate per tag of
/// the axis tag list.
pub struct BaseScriptRecord {
    pub tag: u32,
    pub default_index: u16,
    pub coordinates: Vec<i16>,
}

/// What is written for an axis: the tag list and one record per script.
pub struct BaseAxisRecords {
    pub tag_list: BaseTagList,
    pub scripts: Vec<BaseScriptRecord>,
}

/// `r` is the record written for `e` against the axis tag list `tags`:
/// the default index is that of the first occurrence of the default tag
/// (0 when absent, kept to 16 bits), and tag `m`'s coordinate is that of
/// the first baseline with that tag (0 when there is none).
pub open spec fn script_record_matches(r: BaseScriptRecord, e: BaseScriptEntry, tags: Seq<u32>) -> bool {
    let i = first_index_from(tags, e.default_baseline_tag, 0);
    &&& r.tag == e.tag
    &&& r.default_index == (if i >= 0 { i as u16 } else { 0u16 })
    &&& r.coordinates@ == Seq::new(tags.len(), |m: int| coordinate_for_from(e.base_values@, tags[m], 0))
}

/// Adds `x` to the strictly increasing `v`, keeping it strictly increasing.
fn insert_sorted(v: &mut Vec<u32>, x: u32)
    requires
        strictly_sorted(old(v)@),
    ensures
        strictly_sorted(final(v)@),
        forall|y: u32| #[trigger] final(v)@.contains(y) <==> (old(v)@.contains(y) || y == x),
{
    let mut i: usize = 0;
    while i < v.len() && v[i] < x
        invariant
            i <= v@.len(),
            forall|k: int| 0 <= k < i ==> v@[k] < x,
        decreases v@.len() - i,
    {
        i = i + 1;
    }
    if i < v.len() && v[i] == x {
        assert forall|y: u32| #[trigger] v@.contains(y) <==> (v@.contains(y) || y == x) by {
            if y == x {
                assert(v@[i as int] == x);
            }
        }
        return;
    }
    let ghost before = v@;
    let ghost pos = i as int;
    v.insert(i, x);
    proof {
        before.insert_ensures(pos, x);
    }
    assert(v@ == before.insert(pos, x));
    assert forall|a: int| 0 <= a < v@.len() implies #[trigger] v@[a] == (if a < pos { before[a] } else if a == pos { x } else { before[a - 1] }) by {
        if a > pos {
            assert(before.insert(pos, x)[(a - 1) + 1] == before[a - 1]);
        }
    }
    assert forall|a: int, b: int| 0 <= a < b < v@.len() implies v@[a] < v@[b] by {
        assert(v@[a] == (if a < pos { before[a] } else if a == pos { x } else { before[a - 1] }));
        assert(v@[b] == (if b < pos { before[b] } else if b == pos { x } else { before[b - 1] }));
        if a == pos {
            assert(before[pos] > x);
            if b - 1 > pos {
                assert(before[pos] < before[b - 1]);
            }
        }
    }
    assert forall|y: u32| #[trigger] v@.contains(y) <==> (before.contains(y) || y == x) by {
        if v@.contains(y) {
            let k = choose|k: int| 0 <= k < v@.len() && v@[k] == y;
            assert(v@[k] == (if k < pos { before[k] } else if k == pos { x } else { before[k - 1] }));
            if k < pos {
                assert(before[k] == y);
            } else if k > pos {
                assert(before[k - 1] == y);
            }
        }
        if before.contains(y) {
            let k = choose|k: int| 0 <= k < before.len() && before[k] == y;
            if k < pos {
                assert(v@[k] == (if k < pos { before[k] } else if k == pos { x } else { before[k - 1] }));
            } else {
                assert(v@[k + 1] == (if k + 1 < pos { before[k + 1] } else if k + 1 == pos { x } else { before[k] }));
            }
        }
        if y == x {
            assert(v@[pos] == x);
        }
    }
}

/// Some baseline among the first `k` of `vs` is tagged `x`.
pub open spec fn values_use_tag(vs: Seq<BaseValue>, k: int, x: u32) -> bool {
    exists|m: int| 0 <= m < k && (#[trigger] vs[m]).tag == x
}

/// The axis has at most 65535 scripts and every script at most 65535
/// baselines (the writer counts them in 16 bits).
pub open spec fn axis_lists_fit(a: BaseAxis) -> bool {
    &&& a.entries@.len() <= 65535
    &&& forall|j: int| 0 <= j < a.entries@.len() ==> (#[trigger] a.entries@[j]).base_values@.len() <= 65535
}

/// `s` lists the tags the entries of `a` use, sorted, once each.
pub open spec fn is_axis_tag_list(s: Seq<u32>, a: BaseAxis) -> bool {
    &&& strictly_sorted(s)
    &&& forall|x: u32| #[trigger] s.contains(x) <==> entries_use_tag(a.entries@, a.entries@.len() as int, x)
}

/// The axis can be written: its lists fit, and it uses at most 65535
/// distinct tags.
pub open spec fn axis_fits(a: BaseAxis) -> bool {
    &&& axis_lists_fit(a)
    &&& exists|s: Seq<u32>| is_axis_tag_list(s, a) && s.len() <= 65535
}

/// Two strictly increasing sequences with the same elements are equal.
proof fn lemma_sorted_same_members(a: Seq<u32>, b: Seq<u32>)
    requires
        strictly_sorted(a),
        strictly_sorted(b),
        forall|x: u32| #[trigger] a.contains(x) <==> b.contains(x),
    ensures
        a == b,
    decreases a.len(),
{
    if a.len() == 0 {
        if b.len() > 0 {
            assert(b.contains(b[0]));
            assert(a.contains(b[0]));
        }
        assert(a =~= b);
    } else if b.len() == 0 {
        assert(a.contains(a[0]));
    } else {
        assert(a.contains(a[0]));
        assert(b.contains(b[0]));
        assert(b.contains(a[0]));
        assert(a.contains(b[0]));
        let k = choose|k: int| 0 <= k < b.len() && b[k] == a[0];
        let m = choose|m: int| 0 <= m < a.len() && a[m] == b[0];
        assert(a[0] == b[0]) by {
            if k > 0 {
                assert(b[0] < b[k]);
            }
            if m > 0 {
                assert(a[0] < a[m]);
            }
        }
        let a1 = a.drop_first();
        let b1 = b.drop_first();
        assert forall|x: u32| #[trigger] a1.contains(x) <==> b1.contains(x) by {
            if a1.contains(x) {
                let i = choose|i: int| 0 <= i < a1.len() && a1[i] == x;
                assert(a[i + 1] == x);
                assert(a.contains(x));
                assert(b.contains(x));
                let q = choose|q: int| 0 <= q < b.len() && b[q] == x;
                assert(a[0] < a[i + 1]);
                assert(q != 0);
                assert(b1[q - 1] == x);
            }
            if b1.contains(x) {
                let i = choose|i: int| 0 <= i < b1.len() && b1[i] == x;
                assert(b[i + 1] == x);
                assert(b.contains(x));
                assert(a.contains(x));
                let q = choose|q: int| 0 <= q < a.len() && a[q] == x;
                assert(b[0] < b[i + 1]);
                assert(q != 0);
                assert(a1[q - 1] == x);
            }
        }
        lemma_sorted_same_members(a1, b1);
        assert(a =~= seq![a[0]] + a1);
        assert(b =~= seq![b[0]] + b1);
        assert(a =~= b);
    }
}

/// The tag list of an axis: every tag its entries use, sorted, once each.
pub fn axis_tag_list(axis: &BaseAxis) -> (r: BaseTagList)
    requires
        axis_lists_fit(*axis),
    ensures
        strictly_sorted(r.items@),
        forall|x: u32| #[trigger] r.items@.contains(x) <==> entries_use_tag(axis.entries@, axis.entries@.len() as int, x),
{
    let mut items: Vec<u32> = Vec::new();
    let mut j: usize = 0;
    while j < axis.entries.len()
        invariant
            j <= axis.entries@.len(),
            strictly_sorted(items@),
            forall|x: u32| #[trigger] items@.contains(x) <==> entries_use_tag(axis.entries@, j as int, x),
        decreases axis.entries@.len() - j,
    {
        let entry = &axis.entries[j];
        let ghost before = items@;
        if entry.default_baseline_tag != 0 {
            insert_sorted(&mut items, entry.default_baseline_tag);
        }
        let ghost mid = items@;
        let mut k: usize = 0;
        while k < entry.base_values.len()
            invariant
                k <= entry.base_values@.len(),
                strictly_sorted(items@),
                forall|x: u32| #[trigger] items@.contains(x) <==> (mid.contains(x) || values_use_tag(entry.base_values@, k as int, x)),
            decreases entry.base_values@.len() - k,
        {
            let ghost prev = items@;
            insert_sorted(&mut items, entry.base_values[k].tag);
            assert forall|x: u32| #[trigger] items@.contains(x) <==> (mid.contains(x) || values_use_tag(entry.base_values@, k + 1, x)) by {
                if items@.contains(x) && !prev.contains(x) {
                    assert(entry.base_values@[k as int].tag == x);
                }
                if values_use_tag(entry.base_values@, k + 1, x) {
                    let m = choose|m: int| 0 <= m < k + 1 && (#[trigger] entry.base_values@[m]).tag == x;
                    if m < k as int {
                        assert(values_use_tag(entry.base_values@, k as int, x));
                        assert(prev.contains(x));
                    }
                }
                if values_use_tag(entry.base_values@, k as int, x) {
                    let m = choose|m: int| 0 <= m < k && (#[trigger] entry.base_values@[m]).tag == x;
                    assert(values_use_tag(entry.base_values@, k + 1, x));
                }
            }
            k = k + 1;
        }
        assert forall|x: u32| #[trigger] items@.contains(x) <==> entries_use_tag(axis.entries@, j + 1, x) by {
            if items@.contains(x) {
                if before.contains(x) {
                    let jj = choose|jj: int| 0 <= jj < j && entry_uses_tag(#[trigger] axis.entries@[jj], x);
                    assert(0 <= jj < j + 1 && entry_uses_tag(axis.entries@[jj], x));
                } else {
                    if !mid.contains(x) {
                        let m = choose|m: int| 0 <= m < entry.base_values@.len() && (#[trigger] entry.base_values@[m]).tag == x;
                        assert(entry.base_values@[m].tag == x);
                    }
                    assert(entry_uses_tag(axis.entries@[j as int], x));
                }
            }
            if entries_use_tag(axis.entries@, j + 1, x) {
                let jj = choose|jj: int| 0 <= jj < j + 1 && entry_uses_tag(#[trigger] axis.entries@[jj], x);
                if jj < j as int {
                    assert(entries_use_tag(axis.entries@, j as int, x));
                    assert(before.contains(x));
                } else {
                    if !(entry.default_baseline_tag != 0 && entry.default_baseline_tag == x) {
                        let m = choose|m: int| 0 <= m < entry.base_values@.len() && (#[trigger] entry.base_values@[m]).tag == x;
                        assert(values_use_tag(entry.base_values@, entry.base_values@.len() as int, x));
                    } else {
                        assert(mid.contains(x));
                    }
                }
            }
        }
        j = j + 1;
    }
    BaseTagList { items }
}

/// The record written for `entry` against the axis tag list `tags`.
pub fn base_script_record(entry: &BaseScriptEntry, tags: &Vec<u32>) -> (r: BaseScriptRecord)
    requires
        tags@.len() <= 65535,
        entry.base_values@.len() <= 65535,
    ensures
        script_record_matches(r, *entry, tags@),
{
    let mut default_index: u16 = 0;
    let mut found = false;
    let mut m: usize = 0;
    while m < tags.len() && !found
        invariant
            m <= tags@.len(),
            tags@.len() <= 65535,
            !found ==> first_index_from(tags@, entry.default_baseline_tag, 0) == first_index_from(tags@, entry.default_baseline_tag, m as int),
            !found ==> default_index == 0,
            found ==> first_index_from(tags@, entry.default_baseline_tag, 0) >= 0
                && default_index == first_index_from(tags@, entry.default_baseline_tag, 0) as u16,
        decreases tags@.len() - m + (if found { 0int } else { 1int }),
    {
        if tags[m] == entry.default_baseline_tag {
            default_index = m as u16;
            found = true;
        } else {
            m = m + 1;
        }
    }
    let mut coordinates: Vec<i16> = Vec::with_capacity(tags.len());
    let mut n: usize = 0;
    while n < tags.len()
        invariant
            n <= tags@.len(),
            coordinates@ =~= Seq::new(n as nat, |q: int| coordinate_for_from(entry.base_values@, tags@[q], 0)),
        decreases tags@.len() - n,
    {
        let tag = tags[n];
        let mut c: i16 = 0;
        let mut done = false;
        let mut k: usize = 0;
        while k < entry.base_values.len() && !done
            invariant
                k <= entry.base_values@.len(),
                !done ==> coordinate_for_from(entry.base_values@, tag, 0) == coordinate_for_from(entry.base_values@, tag, k as int),
                !done ==> c == 0,
                done ==> c == coordinate_for_from(entry.base_values@, tag, 0),
            decreases entry.base_values@.len() - k + (if done { 0int } else { 1int }),
        {
            if entry.base_values[k].tag == tag {
                c = entry.base_values[k].coordinate;
                done = true;
            } else {
                k = k + 1;
            }
        }
        coordinates.push(c);
        n = n + 1;
    }
    BaseScriptRecord { tag: entry.tag, default_index, coordinates }
}

/// What is written for `axis`: its tag list (every tag its scripts use,
/// sorted, once each) and one record per script, in order.  The writer
/// counts scripts, baselines and tags in 16 bits, so each must number at
/// most 65535.
pub fn axis_to_bk(axis: &BaseAxis) -> (r: BaseAxisRecords)
    requires
        axis_fits(*axis),
    ensures
        strictly_sorted(r.tag_list.items@),
        forall|x: u32| r.tag_list.items@.contains(x) <==> entries_use_tag(axis.entries@, axis.entries@.len() as int, x),
        r.scripts@.len() == axis.entries@.len(),
        forall|j: int| 0 <= j < r.scripts@.len() ==> script_record_matches(#[trigger] r.scripts@[j], axis.entries@[j], r.tag_list.items@),
        forall|j: int| 0 <= j < r.scripts@.len() ==> (#[trigger] r.scripts@[j]).tag == axis.entries@[j].tag,
        r.tag_list.items@.len() <= 65535,
        axis_records_match(r, *axis),
{
    let tag_list = axis_tag_list(axis);
    proof {
        let s = choose|s: Seq<u32>| is_axis_tag_list(s, *axis) && s.len() <= 65535;
        lemma_sorted_same_members(tag_list.items@, s);
    }
    let mut scripts: Vec<BaseScriptRecord> = Vec::with_capacity(axis.entries.len());
    let mut j: usize = 0;
    while j < axis.entries.len()
        invariant
            j <= axis.entries@.len(),
            scripts@.len() == j,
            tag_list.items@.len() <= 65535,
            axis_lists_fit(*axis),
            forall|k: int| 0 <= k < j ==> script_record_matches(#[trigger] scripts@[k], axis.entries@[k], tag_list.items@),
        decreases axis.entries@.len() - j,
    {
        scripts.push(base_script_record(&axis.entries[j], &tag_list.items));
        j = j + 1;
    }
    BaseAxisRecords { tag_list, scripts }
}

/// What is written for a BASE table: its version and each axis present.
pub struct BaseLayout {
    pub version: u32,
    pub horizontal: Option<BaseAxisRecords>,
    pub vertical: Option<BaseAxisRecords>,
}

/// `r` is what is written for the axis `a`, as `axis_to_bk` describes it.
pub open spec fn axis_records_match(r: BaseAxisRecords, a: BaseAxis) -> bool {
    &&& is_axis_tag_list(r.tag_list.items@, a)
    &&& r.scripts@.len() == a.entries@.len()
    &&& forall|j: int| 0 <= j < r.scripts@.len() ==> script_record_matches(#[trigger] r.scripts@[j], a.entries@[j], r.tag_list.items@)
}

/// `r` is what is written for the axis slot `a`: nothing for no axis.
pub open spec fn axis_slot_matches(r: Option<BaseAxisRecords>, a: Option<Box<BaseAxis>>) -> bool {
    match a {
        None => r is None,
        Some(x) => r matches Some(rr) && axis_records_match(rr, *x),
    }
}

/// What is written for `base` (version 1.0 and each axis present); nothing
/// for no table.
pub fn otfcc_build_base(base: Option<&BaseTable>) -> (r: Option<BaseLayout>)
    requires
        base matches Some(b) ==> (b.horizontal matches Some(h) ==> axis_fits(*h))
            && (b.vertical matches Some(v) ==> axis_fits(*v)),
    ensures
        match base {
            None => r is None,
            Some(b) => r matches Some(l) && l.version == 0x10000
                && axis_slot_matches(l.horizontal, b.horizontal)
                && axis_slot_matches(l.vertical, b.vertical),
        },
{
    let b = match base {
        Some(b) => b,
        None => return None,
    };
    let horizontal = match &b.horizontal {
        Some(h) => Some(axis_to_bk(h)),
        None => None,
    };
    let vertical = match &b.vertical {
        Some(v) => Some(axis_to_bk(v)),
        None => None,
    };
    Some(BaseLayout { version: 0x10000, horizontal, vertical })
}

// ---------------------------------------------------------------------
// Tags as text.

/// The four characters of a tag, most significant byte first.
pub open spec fn tag_chars(tag: u32) -> Seq<u8> {
    seq![(tag >> 24u32 & 0xffu32) as u8, (tag >> 16u32 & 0xffu32) as u8, (tag >> 8u32 & 0xffu32) as u8, (tag & 0xffu32) as u8]
}

/// The four characters of `tag`.
pub fn tag2str(tag: u32) -> (r: [u8; 4])
    ensures
        r@ == tag_chars(tag),
{
    let r = [(tag >> 24u32 & 0xffu32) as u8, (tag >> 16u32 & 0xffu32) as u8, (tag >> 8u32 & 0xffu32) as u8, (tag & 0xffu32) as u8];
    assert(r@ =~= tag_chars(tag));
    r
}

/// A character as the signed C character it is read as, widened to 32 bits.
pub open spec fn char_bits(b: u8) -> u32 {
    (b as i8) as u32
}

/// The number of characters of `s` a tag is made of: those before the
/// first NUL, at most four.
pub open spec fn tag_len(s: Seq<u8>, i: int) -> int
    decreases 4 - i,
{
    if i >= 4 || i >= s.len() || s[i] == 0 {
        i
    } else {
        tag_len(s, i + 1)
    }
}

/// The tag accumulated from the first `n` characters of `s`.
pub open spec fn tag_prefix(s: Seq<u8>, n: int) -> u32
    decreases n,
{
    if n <= 0 {
        0
    } else {
        tag_prefix(s, n - 1) << 8u32 | char_bits(s[n - 1])
    }
}

/// `t` padded with spaces from `n` characters up to four.
pub open spec fn tag_pad(t: u32, n: int) -> u32
    decreases 4 - n,
{
    if n >= 4 {
        t
    } else {
        tag_pad(t << 8u32 | 0x20u32, n + 1)
    }
}

/// The tag named by the text `s` (up to a NUL or four characters, padded
/// with spaces); 0 for no text.
pub open spec fn spec_str2tag(s: Option<Seq<u8>>) -> u32 {
    match s {
        None => 0,
        Some(s) => tag_pad(tag_prefix(s, tag_len(s, 0)), tag_len(s, 0)),
    }
}

/// The tag named by the text `tags` (up to a NUL or four characters,
/// padded with spaces); 0 for no text.
pub fn str2tag(tags: Option<&[u8]>) -> (r: u32)
    ensures
        r == spec_str2tag(match tags { Some(s) => Some(s@), None => None }),
{
    let s = match tags {
        Some(s) => s,
        None => return 0,
    };
    let mut tag: u32 = 0;
    let mut len: usize = 0;
    while len < 4 && len < s.len() && s[len] != 0
        invariant
            len <= 4,
            len <= s@.len(),
            tag_len(s@, 0) == tag_len(s@, len as int),
            tag == tag_prefix(s@, len as int),
        decreases 4 - len,
    {
        tag = tag << 8u32 | (s[len] as i8) as u32;
        len = len + 1;
    }
    let ghost n = len as int;
    assert(tag_len(s@, 0) == n);
    while len < 4
        invariant
            n <= len <= 4,
            tag_pad(tag_prefix(s@, n), n) == tag_pad(tag, len as int),
        decreases 4 - len,
    {
        tag = tag << 8u32 | 0x20u32;
        len = len + 1;
    }
    tag
}

/// Writing a tag as text and reading the text back gives the tag, for
/// every tag whose four characters are ASCII and not NUL.
pub proof fn lemma_tag_text_roundtrip(tag: u32)
    requires
        forall|i: int| 0 <= i < 4 ==> 0 < #[trigger] tag_chars(tag)[i] < 0x80,
    ensures
        spec_str2tag(Some(tag_chars(tag))) == tag,
{
    let s = tag_chars(tag);
    let b0 = s[0];
    let b1 = s[1];
    let b2 = s[2];
    let b3 = s[3];
    assert(0 < s[0] < 0x80 && 0 < s[1] < 0x80 && 0 < s[2] < 0x80 && 0 < s[3] < 0x80);
    assert(tag_len(s, 4) == 4);
    assert(tag_len(s, 3) == 4);
    assert(tag_len(s, 2) == 4);
    assert(tag_len(s, 1) == 4);
    assert(tag_len(s, 0) == 4);
    assert(char_bits(b0) == b0 as u32 && char_bits(b1) == b1 as u32 && char_bits(b2) == b2 as u32 && char_bits(b3) == b3 as u32) by {
        assert(b0 < 0x80 ==> (b0 as i8) as u32 == b0 as u32) by (bit_vector);
        assert(b1 < 0x80 ==> (b1 as i8) as u32 == b1 as u32) by (bit_vector);
        assert(b2 < 0x80 ==> (b2 as i8) as u32 == b2 as u32) by (bit_vector);
        assert(b3 < 0x80 ==> (b3 as i8) as u32 == b3 as u32) by (bit_vector);
    }
    assert(tag_prefix(s, 0) == 0u32);
    assert(s[1 - 1] == b0);
    assert(tag_prefix(s, 1) == (tag_prefix(s, 0) << 8u32 | char_bits(s[0])));
    assert(tag_prefix(s, 1) == (0u32 << 8u32 | b0 as u32));
    assert(tag_prefix(s, 2) == ((0u32 << 8u32 | b0 as u32) << 8u32 | b1 as u32));
    assert(tag_prefix(s, 3) == (((0u32 << 8u32 | b0 as u32) << 8u32 | b1 as u32) << 8u32 | b2 as u32));
    assert(tag_prefix(s, 4) == ((((0u32 << 8u32 | b0 as u32) << 8u32 | b1 as u32) << 8u32 | b2 as u32) << 8u32 | b3 as u32));
    assert(b0 == (tag >> 24u32 & 0xffu32) as u8 && b1 == (tag >> 16u32 & 0xffu32) as u8
        && b2 == (tag >> 8u32 & 0xffu32) as u8 && b3 == (tag & 0xffu32) as u8);
    assert(((((0u32 << 8u32 | (tag >> 24u32 & 0xffu32) as u8 as u32) << 8u32 | (tag >> 16u32 & 0xffu32) as u8 as u32) << 8u32
        | (tag >> 8u32 & 0xffu32) as u8 as u32) << 8u32 | (tag & 0xffu32) as u8 as u32) == tag) by (bit_vector);
}

/// A tag's text is its four bytes, most significant first; the tag of a
/// text of four non-NUL ASCII characters puts the first one in the most
/// significant byte; a text ending (NUL or end) early is padded with
/// spaces; no text names tag 0.
pub proof fn lemma_tag_text_law(tag: u32, s: Seq<u8>)
    ensures
        tag_chars(tag).len() == 4,
        tag_chars(tag)[0] as int == tag as int / 16777216,
        tag_chars(tag)[1] as int == (tag as int / 65536) % 256,
        tag_chars(tag)[2] as int == (tag as int / 256) % 256,
        tag_chars(tag)[3] as int == tag as int % 256,
        spec_str2tag(None) == 0,
        (s.len() == 0 || s[0] == 0) ==> spec_str2tag(Some(s)) == 0x20202020,
        s.len() >= 4 && (forall|i: int| 0 <= i < 4 ==> 0 < #[trigger] s[i] < 0x80) ==> spec_str2tag(Some(s)) as int
            == s[0] * 16777216 + s[1] * 65536 + s[2] * 256 + s[3],
{
    assert((tag >> 24u32 & 0xffu32) as u8 as int == tag as int / 16777216) by (bit_vector);
    assert((tag >> 16u32 & 0xffu32) as u8 as int == (tag as int / 65536) % 256) by (bit_vector);
    assert((tag >> 8u32 & 0xffu32) as u8 as int == (tag as int / 256) % 256) by (bit_vector);
    assert((tag & 0xffu32) as u8 as int == tag as int % 256) by (bit_vector);
    if s.len() == 0 || s[0] == 0 {
        assert(tag_len(s, 0) == 0);
        assert(tag_prefix(s, 0) == 0u32);
        let p1 = 0u32 << 8u32 | 0x20u32;
        let p2 = p1 << 8u32 | 0x20u32;
        let p3 = p2 << 8u32 | 0x20u32;
        let p4 = p3 << 8u32 | 0x20u32;
        assert(p4 == 0x20202020u32) by (bit_vector)
            requires
                p1 == 0u32 << 8u32 | 0x20u32,
                p2 == p1 << 8u32 | 0x20u32,
                p3 == p2 << 8u32 | 0x20u32,
                p4 == p3 << 8u32 | 0x20u32;
        assert(tag_pad(p4, 4) == p4);
        assert(tag_pad(p3, 3) == tag_pad(p4, 4));
        assert(tag_pad(p2, 2) == tag_pad(p3, 3));
        assert(tag_pad(p1, 1) == tag_pad(p2, 2));
        assert(tag_pad(0u32, 0) == tag_pad(p1, 1));
    }
    if s.len() >= 4 && (forall|i: int| 0 <= i < 4 ==> 0 < #[trigger] s[i] < 0x80) {
        let b0 = s[0];
        let b1 = s[1];
        let b2 = s[2];
        let b3 = s[3];
        assert(0 < s[0] < 0x80 && 0 < s[1] < 0x80 && 0 < s[2] < 0x80 && 0 < s[3] < 0x80);
        assert(tag_len(s, 4) == 4);
        assert(tag_len(s, 3) == 4);
        assert(tag_len(s, 2) == 4);
        assert(tag_len(s, 1) == 4);
        assert(tag_len(s, 0) == 4);
        assert(char_bits(b0) == b0 as u32 && char_bits(b1) == b1 as u32 && char_bits(b2) == b2 as u32 && char_bits(b3) == b3 as u32) by {
            assert(b0 < 0x80 ==> (b0 as i8) as u32 == b0 as u32) by (bit_vector);
            assert(b1 < 0x80 ==> (b1 as i8) as u32 == b1 as u32) by (bit_vector);
            assert(b2 < 0x80 ==> (b2 as i8) as u32 == b2 as u32) by (bit_vector);
            assert(b3 < 0x80 ==> (b3 as i8) as u32 == b3 as u32) by (bit_vector);
        }
        assert(tag_prefix(s, 0) == 0u32);
        assert(tag_prefix(s, 1) == (0u32 << 8u32 | b0 as u32));
        assert(tag_prefix(s, 2) == ((0u32 << 8u32 | b0 as u32) << 8u32 | b1 as u32));
        assert(tag_prefix(s, 3) == (((0u32 << 8u32 | b0 as u32) << 8u32 | b1 as u32) << 8u32 | b2 as u32));
        assert(tag_prefix(s, 4) == ((((0u32 << 8u32 | b0 as u32) << 8u32 | b1 as u32) << 8u32 | b2 as u32) << 8u32 | b3 as u32));
        assert(((((0u32 << 8u32 | b0 as u32) << 8u32 | b1 as u32) << 8u32 | b2 as u32) << 8u32 | b3 as u32) as int
            == b0 as int * 16777216 + b1 as int * 65536 + b2 as int * 256 + b3 as int) by (bit_vector);
    }
}

// ---------------------------------------------------------------------
// Laws of reading and writing, stated over the bytes and the entries.

/// The search for `x` in `s` from `i` finds its first occurrence there, or
/// reports -1 when there is none.
proof fn lemma_first_index_from(s: Seq<u32>, x: u32, i: int)
    requires
        0 <= i,
    ensures
        first_index_from(s, x, i) == -1 ==> forall|k: int| i <= k < s.len() ==> s[k] != x,
        first_index_from(s, x, i) != -1 ==> i <= first_index_from(s, x, i) < s.len()
            && s[first_index_from(s, x, i)] == x
            && forall|k: int| i <= k < first_index_from(s, x, i) ==> s[k] != x,
    decreases s.len() - i,
{
    if i < s.len() && s[i] != x {
        lemma_first_index_from(s, x, i + 1);
    }
}

/// The coordinate looked up for `x` from `k` is that of the first baseline
/// tagged `x` there, or 0 when there is none.
proof fn lemma_coordinate_for_from(vs: Seq<BaseValue>, x: u32, k: int)
    requires
        0 <= k,
    ensures
        (forall|q: int| k <= q < vs.len() ==> vs[q].tag != x) ==> coordinate_for_from(vs, x, k) == 0,
        forall|q: int| k <= q < vs.len() && vs[q].tag == x && (forall|p: int| k <= p < q ==> vs[p].tag != x)
            ==> coordinate_for_from(vs, x, k) == vs[q].coordinate,
    decreases vs.len() - k,
{
    if k < vs.len() && vs[k].tag != x {
        lemma_coordinate_for_from(vs, x, k + 1);
        assert forall|q: int| k <= q < vs.len() && vs[q].tag == x && (forall|p: int| k <= p < q ==> vs[p].tag != x)
            implies coordinate_for_from(vs, x, k) == vs[q].coordinate by {
            assert(q != k);
            assert forall|p: int| k + 1 <= p < q implies vs[p].tag != x by {}
        }
    }
}

/// A written script record carries the tag of its script; its default
/// index points at the first occurrence of the script's default baseline
/// tag in the tag list (0 when the tag is not listed); it has one
/// coordinate per listed tag, that of the script's first baseline with
/// that tag (0 when the script has none).
pub proof fn lemma_script_record_law(r: BaseScriptRecord, e: BaseScriptEntry, tags: Seq<u32>)
    requires
        script_record_matches(r, e, tags),
        tags.len() <= 65535,
    ensures
        r.tag == e.tag,
        tags.contains(e.default_baseline_tag) ==> tags[r.default_index as int] == e.default_baseline_tag
            && forall|k: int| 0 <= k < r.default_index ==> tags[k] != e.default_baseline_tag,
        !tags.contains(e.default_baseline_tag) ==> r.default_index == 0,
        r.coordinates@.len() == tags.len(),
        forall|m: int| 0 <= m < tags.len() && (forall|q: int| 0 <= q < e.base_values@.len() ==> e.base_values@[q].tag != tags[m])
            ==> r.coordinates@[m] == 0,
        forall|m: int, q: int| 0 <= m < tags.len() && 0 <= q < e.base_values@.len() && e.base_values@[q].tag == tags[m]
            && (forall|p: int| 0 <= p < q ==> e.base_values@[p].tag != tags[m])
            ==> r.coordinates@[m] == e.base_values@[q].coordinate,
{
    lemma_first_index_from(tags, e.default_baseline_tag, 0);
    let i = first_index_from(tags, e.default_baseline_tag, 0);
    if tags.contains(e.default_baseline_tag) {
        let k = choose|k: int| 0 <= k < tags.len() && tags[k] == e.default_baseline_tag;
        assert(i != -1);
        assert((i as u16) as int == i);
    } else {
        if i != -1 {
            assert(tags.contains(tags[i]));
        }
    }
    assert forall|m: int| 0 <= m < tags.len() implies #[trigger] r.coordinates@[m] == coordinate_for_from(e.base_values@, tags[m], 0) by {}
    assert forall|m: int| 0 <= m < tags.len() && (forall|q: int| 0 <= q < e.base_values@.len() ==> e.base_values@[q].tag != tags[m])
        implies r.coordinates@[m] == 0 by {
        lemma_coordinate_for_from(e.base_values@, tags[m], 0);
    }
    assert forall|m: int, q: int| 0 <= m < tags.len() && 0 <= q < e.base_values@.len() && e.base_values@[q].tag == tags[m]
        && (forall|p: int| 0 <= p < q ==> e.base_values@[p].tag != tags[m])
        implies r.coordinates@[m] == e.base_values@[q].coordinate by {
        lemma_coordinate_for_from(e.base_values@, tags[m], 0);
    }
}

/// What is written for an axis: its tag list is strictly increasing and
/// holds exactly the non-zero default baseline tags and the baseline tags
/// of its scripts; there is one script record per script, in order, each
/// carrying its script's tag.
pub proof fn lemma_axis_records_law(r: BaseAxisRecords, a: BaseAxis)
    requires
        axis_records_match(r, a),
    ensures
        forall|i: int, j: int| 0 <= i < j < r.tag_list.items@.len() ==> r.tag_list.items@[i] < r.tag_list.items@[j],
        forall|x: u32| #[trigger] r.tag_list.items@.contains(x) <==> exists|j: int| 0 <= j < a.entries@.len() && {
            ||| (a.entries@[j].default_baseline_tag != 0 && a.entries@[j].default_baseline_tag == x)
            ||| exists|k: int| 0 <= k < a.entries@[j].base_values@.len() && a.entries@[j].base_values@[k].tag == x
        },
        r.scripts@.len() == a.entries@.len(),
        forall|j: int| 0 <= j < r.scripts@.len() ==> (#[trigger] r.scripts@[j]).tag == a.entries@[j].tag,
{
    assert forall|x: u32| #[trigger] r.tag_list.items@.contains(x) <==> exists|j: int| 0 <= j < a.entries@.len() && {
        ||| (a.entries@[j].default_baseline_tag != 0 && a.entries@[j].default_baseline_tag == x)
        ||| exists|k: int| 0 <= k < a.entries@[j].base_values@.len() && a.entries@[j].base_values@[k].tag == x
    } by {
        if r.tag_list.items@.contains(x) {
            assert(entries_use_tag(a.entries@, a.entries@.len() as int, x));
            let j = choose|j: int| 0 <= j < a.entries@.len() && entry_uses_tag(#[trigger] a.entries@[j], x);
            assert(entry_uses_tag(a.entries@[j], x));
        }
        if exists|j: int| 0 <= j < a.entries@.len() && {
            ||| (a.entries@[j].default_baseline_tag != 0 && a.entries@[j].default_baseline_tag == x)
            ||| exists|k: int| 0 <= k < a.entries@[j].base_values@.len() && a.entries@[j].base_values@[k].tag == x
        } {
            let j = choose|j: int| 0 <= j < a.entries@.len() && {
                ||| (a.entries@[j].default_baseline_tag != 0 && a.entries@[j].default_baseline_tag == x)
                ||| exists|k: int| 0 <= k < a.entries@[j].base_values@.len() && a.entries@[j].base_values@[k].tag == x
            };
            if !(a.entries@[j].default_baseline_tag != 0 && a.entries@[j].default_baseline_tag == x) {
                let k = choose|k: int| 0 <= k < a.entries@[j].base_values@.len() && a.entries@[j].base_values@[k].tag == x;
                assert(a.entries@[j].base_values@[k].tag == x);
            }
            assert(entry_uses_tag(a.entries@[j], x));
            assert(entries_use_tag(a.entries@, a.entries@.len() as int, x));
        }
    }
    assert forall|j: int| 0 <= j < r.scripts@.len() implies (#[trigger] r.scripts@[j]).tag == a.entries@[j].tag by {
        assert(script_record_matches(r.scripts@[j], a.entries@[j], r.tag_list.items@));
    }
}

/// Reading a BaseScript table at `off` against an axis tag list of `n`
/// tags: it is readable exactly when its BaseValues offset is non-zero
/// and the BaseValues table (DefaultIndex, a count of `n`, `n` coordinate
/// offsets) fits; then the default baseline tag is the listed tag at
/// DefaultIndex modulo `n`, and baseline `j` has tag `j` of the list and
/// the coordinate of the BaseCoord its offset points to (0 for a zero
/// offset or a BaseCoord that does not fit).  Otherwise nothing is read.
pub proof fn lemma_base_script_law(d: Seq<u8>, off: int, tags: Seq<u32>, n: u16)
    requires
        0 <= off,
        n > 0,
        tags.len() >= n,
    ensures
        ({
            let vp = off + be16(d, off);
            base_script_ok(d, off, n as int) <==> (off + 2 <= d.len() && be16(d, off) != 0 && vp + 4 <= d.len()
                && be16(d, vp + 2) == n && vp + 4 + 2 * n <= d.len())
        }),
        base_script_ok(d, off, n as int) ==> ({
            let vp = off + be16(d, off);
            &&& base_script_default(d, off, tags, n) == tags[(be16(d, vp) % n) as int]
            &&& base_script_values(d, off, tags, n).len() == n
            &&& forall|j: int| 0 <= j < n ==> (#[trigger] base_script_values(d, off, tags, n)[j]).tag == tags[j]
                && base_script_values(d, off, tags, n)[j].coordinate == ({
                    let vo = be16(d, vp + 4 + 2 * j);
                    if vo != 0 && vp + vo + 4 <= d.len() { s16(be16(d, vp + vo + 2)) } else { 0i16 }
                })
        }),
        !base_script_ok(d, off, n as int) ==> base_script_default(d, off, tags, n) == 0
            && base_script_values(d, off, tags, n).len() == 0,
{
}

/// Reading an Axis table at `off`: it is readable exactly when both list
/// offsets are non-zero, there is at least one baseline tag, and both
/// lists fit; then it holds one script per BaseScriptRecord, in order,
/// each with the tag of its record.
pub proof fn lemma_axis_read_law(a: BaseAxis, d: Seq<u8>, off: int)
    requires
        0 <= off,
    ensures
        ({
            let tl = off + be16(d, off);
            let sl = off + be16(d, off + 2);
            axis_ok(d, off) <==> (off + 4 <= d.len() && be16(d, off) != 0 && be16(d, off + 2) != 0
                && tl + 2 <= d.len() && be16(d, tl) != 0 && tl + 2 + 4 * be16(d, tl) <= d.len()
                && sl + 2 <= d.len() && sl + 2 + 6 * be16(d, sl) <= d.len())
        }),
        axis_ok(d, off) && axis_matches(a, d, off) ==> ({
            let sl = off + be16(d, off + 2);
            &&& a.entries@.len() == be16(d, sl)
            &&& forall|j: int| 0 <= j < a.entries@.len() ==> (#[trigger] a.entries@[j]).tag == be32(d, sl + 2 + 6 * j)
        }),
        axis_ok(d, off) && axis_matches(a, d, off) ==> ({
            let tl = off + be16(d, off);
            let sl = off + be16(d, off + 2);
            let n = be16(d, tl);
            let tags = Seq::new(n as nat, |i: int| be32(d, tl + 2 + 4 * i));
            forall|j: int| 0 <= j < a.entries@.len() ==> {
                let rel = be16(d, sl + 2 + 6 * j + 4);
                if rel != 0 {
                    &&& (#[trigger] a.entries@[j]).default_baseline_tag == base_script_default(d, sl + rel, tags, n)
                    &&& a.entries@[j].base_values@ == base_script_values(d, sl + rel, tags, n)
                } else {
                    &&& a.entries@[j].default_baseline_tag == 0
                    &&& a.entries@[j].base_values@.len() == 0
                }
            }
        }),
{
    if axis_ok(d, off) && axis_matches(a, d, off) {
        assert forall|j: int| 0 <= j < a.entries@.len() implies (#[trigger] a.entries@[j]).tag == be32(d, off + be16(d, off + 2) + 2 + 6 * j) by {
            assert(script_entry_matches(a.entries@[j], d, off, j));
        }
        let tl = off + be16(d, off);
        let n = be16(d, tl);
        let tags = Seq::new(n as nat, |i: int| be32(d, tl + 2 + 4 * i));
        assert(tags =~= axis_tags(d, off));
        assert forall|j: int| 0 <= j < a.entries@.len() implies script_entry_matches(#[trigger] a.entries@[j], d, off, j) by {}
    }
}

/// Reading a BASE table: it is read exactly when its 8-byte header fits;
/// the horizontal axis is the Axis table at the offset of bytes 4-5, the
/// vertical one that at bytes 6-7, each absent when its offset is 0 or it
/// is not readable.
pub proof fn lemma_base_table_law(r: Option<Box<BaseTable>>, d: Seq<u8>)
    requires
        base_table_result(r, d),
    ensures
        r is Some <==> d.len() >= 8,
        r matches Some(t) ==> (be16(d, 4) == 0 ==> t.horizontal is None)
            && (be16(d, 4) != 0 ==> ((t.horizontal is Some <==> axis_ok(d, be16(d, 4) as int))
                && (t.horizontal matches Some(h) ==> axis_matches(*h, d, be16(d, 4) as int)))),
        r matches Some(t) ==> (be16(d, 6) == 0 ==> t.vertical is None)
            && (be16(d, 6) != 0 ==> ((t.vertical is Some <==> axis_ok(d, be16(d, 6) as int))
                && (t.vertical matches Some(v) ==> axis_matches(*v, d, be16(d, 6) as int)))),
{
}

} // verus!
