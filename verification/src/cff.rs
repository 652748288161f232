//! Pieces of the CFF writer that decide what is written: the string table
//! that gives every custom string its SID, the charset and the FDSelect
//! ranges.
use vstd::prelude::*;
use crate::binio::push_bytes;

verus! {

/// The number of standard strings: custom strings get SIDs from here on.
pub const CFF_STANDARD_STRINGS: i32 = 391;

/// A custom string of the string table, with its index among them.
pub struct CffSidEntry {
    pub sid: i32,
    pub str_0: Vec<u8>,
}

/// Where the text of a C string stops: at its first NUL at or after `i`,
/// or at its end.
pub open spec fn c_len_from(s: Seq<u8>, i: int) -> int
    decreases s.len() - i,
{
    if i < 0 || i >= s.len() || s[i] == 0 {
        i
    } else {
        c_len_from(s, i + 1)
    }
}

/// The text a string is looked up by: its bytes before the first NUL.
pub open spec fn c_str(s: Seq<u8>) -> Seq<u8> {
    s.subrange(0, c_len_from(s, 0))
}

/// The texts of the table's entries, in table order.
pub open spec fn sid_strings(t: Seq<CffSidEntry>) -> Seq<Seq<u8>> {
    t.map_values(|e: CffSidEntry| e.str_0@)
}

/// The index of the first of `strs` from `i` on that is looked up by
/// `key`, or -1.
pub open spec fn find_key_from(strs: Seq<Seq<u8>>, key: Seq<u8>, i: int) -> int
    decreases strs.len() - i,
{
    if i < 0 || i >= strs.len() {
        -1
    } else if c_str(strs[i]) == key {
        i
    } else {
        find_key_from(strs, key, i + 1)
    }
}

/// The index of the string of `strs` looked up by `key`, or -1.
pub open spec fn find_key(strs: Seq<Seq<u8>>, key: Seq<u8>) -> int {
    find_key_from(strs, key, 0)
}

/// A string table: entry `k` has index `k`, and no two entries are looked
/// up by the same text.
pub open spec fn sid_table_wf(t: Seq<CffSidEntry>) -> bool {
    &&& forall|k: int| 0 <= k < t.len() ==> (#[trigger] t[k]).sid == k
    &&& forall|i: int, j: int| 0 <= i < j < t.len() ==> c_str(#[trigger] t[i].str_0@) != c_str(#[trigger] t[j].str_0@)
}

/// The strings of a table after looking up `s`: unchanged when a string
/// with the same text is there, otherwise `s` added at the end.
pub open spec fn intern(strs: Seq<Seq<u8>>, s: Seq<u8>) -> Seq<Seq<u8>> {
    if find_key(strs, c_str(s)) >= 0 {
        strs
    } else {
        strs.push(s)
    }
}

/// The SID of `s` in a table holding `strs` after looking it up.
pub open spec fn sid_after(strs: Seq<Seq<u8>>, s: Seq<u8>) -> int {
    CFF_STANDARD_STRINGS + find_key(intern(strs, s), c_str(s))
}

/// The length of the text of `s` (up to its first NUL).
fn c_len(s: &[u8]) -> (r: usize)
    ensures
        r == c_len_from(s@, 0),
{
    let mut i: usize = 0;
    while i < s.len() && s[i] != 0
        invariant
            i <= s@.len(),
            c_len_from(s@, 0) == c_len_from(s@, i as int),
        decreases s@.len() - i,
    {
        i = i + 1;
    }
    i
}

proof fn lemma_c_len_bounds(s: Seq<u8>, i: int)
    requires
        0 <= i <= s.len(),
    ensures
        i <= c_len_from(s, i) <= s.len(),
    decreases s.len() - i,
{
    if i < s.len() && s[i] != 0 {
        lemma_c_len_bounds(s, i + 1);
    }
}

/// Whether `a` and `b` are looked up by the same text.
fn same_text(a: &[u8], b: &[u8]) -> (r: bool)
    ensures
        r == (c_str(a@) == c_str(b@)),
{
    let la = c_len(a);
    let lb = c_len(b);
    proof {
        lemma_c_len_bounds(a@, 0);
        lemma_c_len_bounds(b@, 0);
    }
    if la != lb {
        assert(c_str(a@).len() != c_str(b@).len());
        return false;
    }
    let mut i: usize = 0;
    while i < la
        invariant
            la == lb,
            la == c_len_from(a@, 0),
            lb == c_len_from(b@, 0),
            la <= a@.len(),
            lb <= b@.len(),
            i <= la,
            forall|k: int| 0 <= k < i ==> a@[k] == b@[k],
        decreases la - i,
    {
        if a[i] != b[i] {
            assert(c_str(a@)[i as int] != c_str(b@)[i as int]);
            return false;
        }
        i = i + 1;
    }
    assert(c_str(a@) =~= c_str(b@));
    true
}

/// The SID of the string `s`: that of the string of the table with the
/// same text when there is one; otherwise `s` is added to the table and
/// gets the next SID.
pub fn sidof(h: &mut Vec<CffSidEntry>, s: &[u8]) -> (r: i32)
    requires
        sid_table_wf(old(h)@),
        old(h)@.len() < 0x7fff_fe78,
    ensures
        sid_table_wf(final(h)@),
        sid_strings(final(h)@) == intern(sid_strings(old(h)@), s@),
        r == sid_after(sid_strings(old(h)@), s@),
{
    let ghost strs = sid_strings(h@);
    let mut i: usize = 0;
    while i < h.len()
        invariant
            h@ == old(h)@,
            sid_table_wf(h@),
            h@.len() < 0x7fff_fe78,
            strs == sid_strings(h@),
            i <= h@.len(),
            find_key(strs, c_str(s@)) == find_key_from(strs, c_str(s@), i as int),
        decreases h@.len() - i,
    {
        if same_text(h[i].str_0.as_slice(), s) {
            assert(strs[i as int] == h@[i as int].str_0@);
            assert(find_key(strs, c_str(s@)) == i as int);
            assert(h@[i as int].sid == i);
            return CFF_STANDARD_STRINGS + h[i].sid;
        }
        i = i + 1;
    }
    assert(find_key(strs, c_str(s@)) == -1);
    let sid = h.len() as i32;
    let mut copy: Vec<u8> = Vec::with_capacity(s.len());
    push_bytes(&mut copy, s);
    h.push(CffSidEntry { sid, str_0: copy });
    proof {
        let t = h@;
        assert(sid_strings(t) =~= strs.push(s@));
        assert forall|i: int, j: int| 0 <= i < j < t.len() implies c_str(#[trigger] t[i].str_0@) != c_str(#[trigger] t[j].str_0@) by {
            if j == t.len() - 1 {
                assert(t[i].str_0@ == strs[i]);
                lemma_find_key_absent(strs, c_str(s@), 0, i);
            } else {
                assert(t[i] == old(h)@[i]);
                assert(t[j] == old(h)@[j]);
            }
        }
        lemma_find_key_last(strs, s@);
    }
    CFF_STANDARD_STRINGS + sid
}

/// No string from `i` on is looked up by `key` when the search from `i`
/// finds none.
proof fn lemma_find_key_absent(strs: Seq<Seq<u8>>, key: Seq<u8>, i: int, k: int)
    requires
        0 <= i <= k < strs.len(),
        find_key_from(strs, key, i) == -1,
    ensures
        c_str(strs[k]) != key,
    decreases k - i,
{
    if i < k {
        lemma_find_key_absent(strs, key, i + 1, k);
    }
}

/// A string added at the end of a table that had none with its text is
/// found at the end.
proof fn lemma_find_key_last(strs: Seq<Seq<u8>>, s: Seq<u8>)
    requires
        find_key(strs, c_str(s)) == -1,
    ensures
        find_key(strs.push(s), c_str(s)) == strs.len(),
{
    lemma_find_key_push(strs, s, 0);
}

proof fn lemma_find_key_push(strs: Seq<Seq<u8>>, s: Seq<u8>, i: int)
    requires
        0 <= i <= strs.len(),
        find_key_from(strs, c_str(s), i) == -1,
    ensures
        find_key_from(strs.push(s), c_str(s), i) == strs.len(),
    decreases strs.len() - i,
{
    if i < strs.len() {
        assert(strs.push(s)[i] == strs[i]);
        lemma_find_key_push(strs, s, i + 1);
    } else {
        assert(strs.push(s)[i] == s);
    }
}

/// The items of the String INDEX: the custom strings in SID order.  The
/// table is emptied.
pub fn cff_string_index_items(h: &mut Vec<CffSidEntry>) -> (r: Vec<Vec<u8>>)
    requires
        sid_table_wf(old(h)@),
    ensures
        r@.len() == old(h)@.len(),
        forall|k: int| 0 <= k < r@.len() ==> (#[trigger] r@[k])@ == sid_strings(old(h)@)[k],
        final(h)@.len() == 0,
{
    let mut items: Vec<Vec<u8>> = Vec::with_capacity(h.len());
    let mut k: usize = 0;
    while k < h.len()
        invariant
            k <= h@.len(),
            h@ == old(h)@,
            items@.len() == k,
            forall|q: int| 0 <= q < k ==> (#[trigger] items@[q])@ == sid_strings(old(h)@)[q],
        decreases h@.len() - k,
    {
        let mut blob: Vec<u8> = Vec::with_capacity(h[k].str_0.len());
        push_bytes(&mut blob, h[k].str_0.as_slice());
        items.push(blob);
        k = k + 1;
    }
    h.clear();
    items
}

/// The strings of a table after looking up each of `names` in turn.
pub open spec fn intern_all(strs: Seq<Seq<u8>>, names: Seq<Seq<u8>>) -> Seq<Seq<u8>>
    decreases names.len(),
{
    if names.len() == 0 {
        strs
    } else {
        intern(intern_all(strs, names.drop_last()), names.last())
    }
}

/// Looking up a string adds at most one entry.
proof fn lemma_intern_len(strs: Seq<Seq<u8>>, s: Seq<u8>)
    ensures
        strs.len() <= intern(strs, s).len() <= strs.len() + 1,
{
}

proof fn lemma_intern_all_len(strs: Seq<Seq<u8>>, names: Seq<Seq<u8>>)
    ensures
        intern_all(strs, names).len() <= strs.len() + names.len(),
    decreases names.len(),
{
    if names.len() > 0 {
        lemma_intern_all_len(strs, names.drop_last());
        lemma_intern_len(intern_all(strs, names.drop_last()), names.last());
    }
}

/// How the glyph names are written.
#[derive(Copy, Clone, PartialEq, Eq, Structural, Debug)]
pub enum CffCharsetPlan {
    /// The predefined ISOAdobe charset.
    IsoAdobe,
    /// One format-2 range: the SID of glyph 1 and how many glyphs follow it.
    Format2 { first: u16, nleft: u16 },
}

/// The charset for glyphs named `names` (glyph 0 excluded): one range from
/// glyph 1 on -- starting at CID 1 for a CID-keyed font, at the SID of
/// glyph 1's name otherwise, the names of glyphs 1 onwards being added to
/// the string table in order -- or the ISOAdobe charset for at most one
/// glyph.
pub fn cff_make_charset(is_cid: bool, names: &Vec<Vec<u8>>, string_hash: &mut Vec<CffSidEntry>) -> (r: CffCharsetPlan)
    requires
        names@.len() <= 65535,
        sid_table_wf(old(string_hash)@),
        old(string_hash)@.len() + names@.len() < 0x7fff_fe78,
    ensures
        sid_table_wf(final(string_hash)@),
        ({
            let old_strs = sid_strings(old(string_hash)@);
            let name_strs = names@.map_values(|v: Vec<u8>| v@);
            if names@.len() > 1 && !is_cid {
                let strs = intern_all(old_strs, name_strs.subrange(1, names@.len() as int));
                &&& sid_strings(final(string_hash)@) == strs
                &&& r == CffCharsetPlan::Format2 {
                    first: sid_after(strs, names@[1]@) as u16,
                    nleft: (names@.len() - 2) as u16,
                }
            } else if names@.len() > 1 {
                &&& sid_strings(final(string_hash)@) == old_strs
                &&& r == CffCharsetPlan::Format2 { first: 1, nleft: (names@.len() - 2) as u16 }
            } else {
                &&& sid_strings(final(string_hash)@) == old_strs
                &&& r == CffCharsetPlan::IsoAdobe
            }
        }),
{
    let ghost old_strs = sid_strings(string_hash@);
    let ghost name_strs = names@.map_values(|v: Vec<u8>| v@);
    if names.len() <= 1 {
        return CffCharsetPlan::IsoAdobe;
    }
    let nleft = (names.len() - 2) as u16;
    if is_cid {
        return CffCharsetPlan::Format2 { first: 1, nleft };
    }
    let mut j: usize = 1;
    assert(name_strs.subrange(1, 1) =~= Seq::<Seq<u8>>::empty());
    while j < names.len()
        invariant
            1 <= j <= names@.len(),
            names@.len() <= 65535,
            name_strs == names@.map_values(|v: Vec<u8>| v@),
            sid_table_wf(string_hash@),
            old_strs.len() + names@.len() < 0x7fff_fe78,
            sid_strings(string_hash@) == intern_all(old_strs, name_strs.subrange(1, j as int)),
        decreases names@.len() - j,
    {
        proof {
            lemma_intern_all_len(old_strs, name_strs.subrange(1, j as int));
        }
        sidof(string_hash, names[j].as_slice());
        proof {
            let sub = name_strs.subrange(1, j + 1);
            assert(sub.drop_last() =~= name_strs.subrange(1, j as int));
            assert(sub.last() == names@[j as int]@);
        }
        j = j + 1;
    }
    assert(name_strs.subrange(1, names@.len() as int) =~= name_strs.subrange(1, j as int));
    proof {
        lemma_intern_all_len(old_strs, name_strs.subrange(1, j as int));
    }
    let first = sidof(string_hash, names[1].as_slice());
    proof {
        let strs = intern_all(old_strs, name_strs.subrange(1, names@.len() as int));
        lemma_intern_all_contains(old_strs, name_strs.subrange(1, names@.len() as int), 0);
        assert(name_strs.subrange(1, names@.len() as int)[0] == names@[1]@);
    }
    CffCharsetPlan::Format2 { first: first as u16, nleft }
}

/// After looking up every string of `names`, each is found again:
/// looking it up once more changes nothing.
proof fn lemma_intern_all_contains(strs: Seq<Seq<u8>>, names: Seq<Seq<u8>>, k: int)
    requires
        0 <= k < names.len(),
    ensures
        find_key(intern_all(strs, names), c_str(names[k])) >= 0,
    decreases names.len(),
{
    let pre = names.drop_last();
    let before = intern_all(strs, pre);
    if k < names.len() - 1 {
        lemma_intern_all_contains(strs, pre, k);
        assert(pre[k] == names[k]);
        lemma_intern_keeps(before, names.last(), c_str(names[k]));
    } else {
        lemma_intern_finds(before, names.last());
    }
}

/// Looking up a string keeps every string found before.
proof fn lemma_intern_keeps(strs: Seq<Seq<u8>>, s: Seq<u8>, key: Seq<u8>)
    requires
        find_key(strs, key) >= 0,
    ensures
        find_key(intern(strs, s), key) >= 0,
{
    if find_key(strs, c_str(s)) < 0 {
        lemma_find_key_prefix(strs, s, key, 0);
    }
}

proof fn lemma_find_key_prefix(strs: Seq<Seq<u8>>, s: Seq<u8>, key: Seq<u8>, i: int)
    requires
        0 <= i <= strs.len(),
        find_key_from(strs, key, i) >= 0,
    ensures
        find_key_from(strs.push(s), key, i) == find_key_from(strs, key, i),
    decreases strs.len() - i,
{
    if i < strs.len() {
        assert(strs.push(s)[i] == strs[i]);
        if c_str(strs[i]) != key {
            lemma_find_key_prefix(strs, s, key, i + 1);
        }
    }
}

/// After looking up `s`, a string with its text is found.
proof fn lemma_intern_finds(strs: Seq<Seq<u8>>, s: Seq<u8>)
    ensures
        find_key(intern(strs, s), c_str(s)) >= 0,
{
    lemma_find_key_range(strs, c_str(s), 0);
    if find_key(strs, c_str(s)) < 0 {
        lemma_find_key_last(strs, s);
    }
}

/// A search finds nothing (-1) or an index at or after where it started.
proof fn lemma_find_key_range(strs: Seq<Seq<u8>>, key: Seq<u8>, i: int)
    requires
        0 <= i,
    ensures
        find_key_from(strs, key, i) == -1 || i <= find_key_from(strs, key, i) < strs.len(),
    decreases strs.len() - i,
{
    if i < strs.len() && c_str(strs[i]) != key {
        lemma_find_key_range(strs, key, i + 1);
    }
}

/// Looking a string up again leaves the table as it is and gives the same
/// SID.
pub proof fn lemma_sidof_again(strs: Seq<Seq<u8>>, s: Seq<u8>)
    ensures
        intern(intern(strs, s), s) == intern(strs, s),
        sid_after(intern(strs, s), s) == sid_after(strs, s),
{
    lemma_intern_finds(strs, s);
}

/// A string that a search finds is looked up by the searched text.
proof fn lemma_find_key_found(strs: Seq<Seq<u8>>, key: Seq<u8>, i: int)
    requires
        0 <= i,
        find_key_from(strs, key, i) >= 0,
    ensures
        c_str(strs[find_key_from(strs, key, i)]) == key,
    decreases strs.len() - i,
{
    if i < strs.len() && c_str(strs[i]) != key {
        lemma_find_key_found(strs, key, i + 1);
    }
}

/// Strings with different texts get different SIDs: looking up `a`, then
/// `b`, gives `b` a SID other than `a`'s.
pub proof fn lemma_sidof_distinct(strs: Seq<Seq<u8>>, a: Seq<u8>, b: Seq<u8>)
    requires
        c_str(a) != c_str(b),
    ensures
        sid_after(intern(strs, a), b) != sid_after(strs, a),
{
    let x = intern(strs, a);
    let y = intern(x, b);
    lemma_intern_finds(strs, a);
    lemma_intern_finds(x, b);
    lemma_find_key_range(x, c_str(a), 0);
    lemma_find_key_found(x, c_str(a), 0);
    lemma_find_key_found(y, c_str(b), 0);
    let i = find_key(x, c_str(a));
    let j = find_key(y, c_str(b));
    if i == j {
        assert(y[i] == x[i]);
    }
}

/// A range of glyphs sharing a Font DICT: its first glyph and the DICT.
#[derive(Copy, Clone, PartialEq, Eq, Structural, Debug)]
pub struct CffFdSelectRange {
    pub first: u16,
    pub fd: u8,
}

/// How the glyphs' Font DICTs are written.
#[derive(Clone, Debug)]
pub enum CffFdSelectPlan {
    /// Nothing: the font is not CID-keyed.
    Empty,
    /// A CID-keyed font without glyphs.
    Unspecified,
    /// Format 3: ranges in glyph order, then the glyph count.
    Format3 { ranges: Vec<CffFdSelectRange>, sentinel: u16 },
}

/// The Font DICT written for a glyph whose DICT index is `raw`: its low
/// byte, or 0 when that is past `count`.
pub open spec fn fd_clamp(raw: u16, count: u16) -> u8 {
    if raw % 256 > count {
        0
    } else {
        (raw % 256) as u8
    }
}

/// Every glyph whose written DICT continues the previous glyph's range
/// has exactly that DICT index.
pub open spec fn fd_runs_exact(raws: Seq<u16>, count: u16) -> bool {
    forall|j: int| 1 <= j < raws.len() && #[trigger] fd_clamp(raws[j], count) == fd_clamp(raws[j - 1], count)
        ==> raws[j] == fd_clamp(raws[j - 1], count) as u16
}

/// The ranges of the first `n` glyphs: one at glyph 0, and one at every
/// glyph whose written DICT differs from the previous glyph's.
pub open spec fn fd_ranges(raws: Seq<u16>, count: u16, n: int) -> Seq<CffFdSelectRange>
    decreases n,
{
    if n <= 0 {
        Seq::empty()
    } else if n == 1 {
        seq![CffFdSelectRange { first: 0, fd: fd_clamp(raws[0], count) }]
    } else if fd_clamp(raws[n - 1], count) != fd_clamp(raws[n - 2], count) {
        fd_ranges(raws, count, n - 1).push(CffFdSelectRange { first: (n - 1) as u16, fd: fd_clamp(raws[n - 1], count) })
    } else {
        fd_ranges(raws, count, n - 1)
    }
}

/// The written DICT of a glyph.
fn clamp_fd(raw: u16, count: u16) -> (r: u8)
    ensures
        r == fd_clamp(raw, count),
{
    let low: u8 = (raw % 256) as u8;
    if low as u16 > count {
        0
    } else {
        low
    }
}

/// The FDSelect of a font whose glyphs use the Font DICTs `fd_indices`,
/// out of `fd_array_count`: nothing unless the font is CID-keyed;
/// otherwise format-3 ranges of consecutive glyphs with the same DICT.
pub fn cff_make_fdselect(is_cid: bool, fd_array_count: u16, fd_indices: &Vec<u16>) -> (r: CffFdSelectPlan)
    requires
        fd_indices@.len() <= 65535,
        fd_runs_exact(fd_indices@, fd_array_count),
    ensures
        match r {
            CffFdSelectPlan::Empty => !is_cid,
            CffFdSelectPlan::Unspecified => is_cid && fd_indices@.len() == 0,
            CffFdSelectPlan::Format3 { ranges, sentinel } => is_cid && fd_indices@.len() > 0
                && ranges@ == fd_ranges(fd_indices@, fd_array_count, fd_indices@.len() as int)
                && sentinel == fd_indices@.len(),
        },
{
    if !is_cid {
        return CffFdSelectPlan::Empty;
    }
    if fd_indices.len() == 0 {
        return CffFdSelectPlan::Unspecified;
    }
    let mut current: u8 = clamp_fd(fd_indices[0], fd_array_count);
    let mut ranges: Vec<CffFdSelectRange> = Vec::new();
    ranges.push(CffFdSelectRange { first: 0, fd: current });
    assert(ranges@ =~= fd_ranges(fd_indices@, fd_array_count, 1));
    let mut j: usize = 1;
    while j < fd_indices.len()
        invariant
            1 <= j <= fd_indices@.len(),
            fd_indices@.len() <= 65535,
            fd_runs_exact(fd_indices@, fd_array_count),
            current == fd_clamp(fd_indices@[j - 1], fd_array_count),
            ranges@ == fd_ranges(fd_indices@, fd_array_count, j as int),
        decreases fd_indices@.len() - j,
    {
        let raw = fd_indices[j];
        let fdi = clamp_fd(raw, fd_array_count);
        if raw != current as u16 {
            current = fdi;
            ranges.push(CffFdSelectRange { first: j as u16, fd: current });
        } else {
            current = fdi;
        }
        j = j + 1;
    }
    CffFdSelectPlan::Format3 { ranges, sentinel: fd_indices.len() as u16 }
}

/// The text a string is looked up by is the part of it before its first
/// NUL byte (all of it when it has none).
pub proof fn lemma_c_str_law(s: Seq<u8>)
    ensures
        c_str(s).len() <= s.len(),
        forall|k: int| 0 <= k < c_str(s).len() ==> #[trigger] c_str(s)[k] == s[k] && s[k] != 0,
        c_str(s).len() < s.len() ==> s[c_str(s).len() as int] == 0,
{
    lemma_c_len_bounds(s, 0);
    lemma_c_len_stops(s, 0);
}

proof fn lemma_c_len_stops(s: Seq<u8>, i: int)
    requires
        0 <= i <= s.len(),
        forall|k: int| 0 <= k < i ==> s[k] != 0,
    ensures
        forall|k: int| 0 <= k < c_len_from(s, i) ==> s[k] != 0,
        c_len_from(s, i) < s.len() ==> s[c_len_from(s, i)] == 0,
    decreases s.len() - i,
{
    if i < s.len() && s[i] != 0 {
        lemma_c_len_stops(s, i + 1);
    }
}

/// Looking up `s` in a table of strings with distinct texts: when one of
/// them has the text of `s`, the table is unchanged and `s` gets that
/// string's SID (391 plus its index); otherwise `s` is added at the end and
/// gets the next SID.
pub proof fn lemma_sidof_law(strs: Seq<Seq<u8>>, s: Seq<u8>)
    requires
        forall|i: int, j: int| 0 <= i < j < strs.len() ==> c_str(#[trigger] strs[i]) != c_str(#[trigger] strs[j]),
    ensures
        forall|i: int| 0 <= i < strs.len() && c_str(#[trigger] strs[i]) == c_str(s)
            ==> intern(strs, s) == strs && sid_after(strs, s) == CFF_STANDARD_STRINGS + i,
        (forall|i: int| 0 <= i < strs.len() ==> c_str(#[trigger] strs[i]) != c_str(s))
            ==> intern(strs, s) == strs.push(s) && sid_after(strs, s) == CFF_STANDARD_STRINGS + strs.len(),
{
    lemma_find_key_range(strs, c_str(s), 0);
    let f = find_key(strs, c_str(s));
    if f >= 0 {
        lemma_find_key_found(strs, c_str(s), 0);
        assert forall|i: int| 0 <= i < strs.len() && c_str(#[trigger] strs[i]) == c_str(s)
            implies intern(strs, s) == strs && sid_after(strs, s) == CFF_STANDARD_STRINGS + i by {
            if i != f {
                if i < f {
                    assert(c_str(strs[i]) != c_str(strs[f]));
                } else {
                    assert(c_str(strs[f]) != c_str(strs[i]));
                }
            }
        }
    } else {
        assert forall|i: int| 0 <= i < strs.len() implies c_str(#[trigger] strs[i]) != c_str(s) by {
            lemma_find_key_absent(strs, c_str(s), 0, i);
        }
        lemma_find_key_last(strs, s);
    }
}

/// The DICT written for glyph `g`: its DICT index's low byte, or 0 when
/// that is past `count`.
pub open spec fn glyph_fd(raws: Seq<u16>, count: u16, g: int) -> int {
    if raws[g] % 256 > count {
        0
    } else {
        (raws[g] % 256) as int
    }
}

proof fn lemma_fd_ranges_shape(raws: Seq<u16>, count: u16, n: int)
    requires
        1 <= n <= raws.len(),
        n <= 65536,
    ensures
        ({
            let rs = fd_ranges(raws, count, n);
            &&& rs.len() >= 1
            &&& rs[0].first == 0
            &&& forall|i: int| 0 <= i < rs.len() ==> (#[trigger] rs[i]).first < n
            &&& forall|i: int| 0 <= i < rs.len() - 1 ==> rs[i].first < (#[trigger] rs[i + 1]).first
            &&& rs.last().fd as int == glyph_fd(raws, count, n - 1)
            &&& forall|i: int| 0 <= i < rs.len() - 1 ==> rs[i].fd != (#[trigger] rs[i + 1]).fd
        }),
    decreases n,
{
    if n > 1 {
        lemma_fd_ranges_shape(raws, count, n - 1);
        let rs = fd_ranges(raws, count, n);
        let prev = fd_ranges(raws, count, n - 1);
        if fd_clamp(raws[n - 1], count) != fd_clamp(raws[n - 2], count) {
            assert forall|i: int| 0 <= i < rs.len() - 1 implies rs[i].first < (#[trigger] rs[i + 1]).first
                && rs[i].fd != rs[i + 1].fd by {
                if i < prev.len() - 1 {
                    assert(rs[i] == prev[i]);
                    assert(rs[i + 1] == prev[i + 1]);
                } else {
                    assert(rs[i] == prev.last());
                }
            }
            assert forall|i: int| 0 <= i < rs.len() implies (#[trigger] rs[i]).first < n by {
                if i < prev.len() {
                    assert(rs[i] == prev[i]);
                }
            }
        }
    }
}

proof fn lemma_fd_ranges_cover(raws: Seq<u16>, count: u16, n: int, i: int, g: int)
    requires
        1 <= n <= raws.len(),
        n <= 65536,
        0 <= i < fd_ranges(raws, count, n).len(),
        fd_ranges(raws, count, n)[i].first <= g,
        g < (if i + 1 < fd_ranges(raws, count, n).len() { fd_ranges(raws, count, n)[i + 1].first as int } else { n }),
    ensures
        fd_ranges(raws, count, n)[i].fd as int == glyph_fd(raws, count, g),
    decreases n,
{
    let rs = fd_ranges(raws, count, n);
    if n > 1 {
        let prev = fd_ranges(raws, count, n - 1);
        lemma_fd_ranges_shape(raws, count, n - 1);
        if fd_clamp(raws[n - 1], count) != fd_clamp(raws[n - 2], count) {
            if i < prev.len() {
                assert(rs[i] == prev[i]);
                if i + 1 < prev.len() {
                    assert(rs[i + 1] == prev[i + 1]);
                }
                lemma_fd_ranges_cover(raws, count, n - 1, i, g);
            }
        } else {
            if g < n - 1 {
                lemma_fd_ranges_cover(raws, count, n - 1, i, g);
            }
        }
    }
}

/// The FDSelect ranges of `n` glyphs: the first starts at glyph 0, each
/// next one later, every one inside the glyphs; consecutive ranges have
/// different DICTs; and every glyph of a range (from its first glyph to
/// the next range's, or the end) has that range's DICT: its DICT index's
/// low byte, or 0 when that is past `count`.
pub proof fn lemma_fd_ranges_law(raws: Seq<u16>, count: u16, n: int)
    requires
        1 <= n <= raws.len(),
        n <= 65536,
    ensures
        ({
            let rs = fd_ranges(raws, count, n);
            &&& rs.len() >= 1
            &&& rs[0].first == 0
            &&& forall|i: int| 0 <= i < rs.len() ==> (#[trigger] rs[i]).first < n
            &&& forall|i: int| 0 <= i < rs.len() - 1 ==> rs[i].first < (#[trigger] rs[i + 1]).first
            &&& forall|i: int| 0 <= i < rs.len() - 1 ==> rs[i].fd != (#[trigger] rs[i + 1]).fd
            &&& forall|i: int, g: int| #![trigger rs[i], raws[g]] 0 <= i < rs.len() && rs[i].first <= g
                && g < (if i + 1 < rs.len() { rs[i + 1].first as int } else { n })
                ==> rs[i].fd as int == (if raws[g] % 256 > count { 0 } else { raws[g] % 256 })
        }),
{
    lemma_fd_ranges_shape(raws, count, n);
    let rs = fd_ranges(raws, count, n);
    assert forall|i: int, g: int| #![trigger rs[i], raws[g]] 0 <= i < rs.len() && rs[i].first <= g
        && g < (if i + 1 < rs.len() { rs[i + 1].first as int } else { n })
        implies rs[i].fd as int == (if raws[g] % 256 > count { 0 } else { raws[g] % 256 }) by {
        lemma_fd_ranges_cover(raws, count, n, i, g);
    }
}

/// Looking up several strings in turn: nothing changes for no string,
/// and each further string is looked up in the table the earlier ones
/// left.
pub proof fn lemma_intern_all_law(strs: Seq<Seq<u8>>, names: Seq<Seq<u8>>, x: Seq<u8>)
    ensures
        intern_all(strs, Seq::empty()) == strs,
        intern_all(strs, names.push(x)) == intern(intern_all(strs, names), x),
{
    assert(names.push(x).drop_last() =~= names);
}

/// The name given to a font that has none.
pub open spec fn default_font_name() -> Seq<u8> {
    seq![0x43, 0x61, 0x72, 0x79, 0x6c, 0x6c, 0x2d, 0x43, 0x46, 0x46, 0x2d, 0x46, 0x4f, 0x4e, 0x54]
}

/// The one item of the Name INDEX: the font's name, or the default name
/// for a font without one.
pub fn cff_name_index_item(font_name: Option<&[u8]>) -> (r: Vec<u8>)
    ensures
        r@ == match font_name {
            Some(n) => n@,
            None => default_font_name(),
        },
{
    match font_name {
        Some(n) => {
            let mut item: Vec<u8> = Vec::with_capacity(n.len());
            push_bytes(&mut item, n);
            item
        },
        None => {
            let item: Vec<u8> = vec![0x43, 0x61, 0x72, 0x79, 0x6c, 0x6c, 0x2d, 0x43, 0x46, 0x46, 0x2d, 0x46, 0x4f, 0x4e, 0x54];
            assert(item@ =~= default_font_name());
            item
        },
    }
}

/// The default font name is the 15 ASCII characters `Caryll-CFF-FONT`.
pub proof fn lemma_default_font_name_law()
    ensures
        default_font_name().len() == 15,
        default_font_name()[0] == 0x43 && default_font_name()[1] == 0x61 && default_font_name()[2] == 0x72
            && default_font_name()[3] == 0x79 && default_font_name()[4] == 0x6c && default_font_name()[5] == 0x6c
            && default_font_name()[6] == 0x2d && default_font_name()[7] == 0x43 && default_font_name()[8] == 0x46
            && default_font_name()[9] == 0x46 && default_font_name()[10] == 0x2d && default_font_name()[11] == 0x46
            && default_font_name()[12] == 0x4f && default_font_name()[13] == 0x4e && default_font_name()[14] == 0x54,
{
}

} // verus!
