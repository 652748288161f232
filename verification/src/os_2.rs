//! The OS/2 table: font-wide metrics and classification.
use vstd::prelude::*;
use crate::binio::{be16, be16_bytes, be32, be32_bytes, fits, lemma_be16_roundtrip, lemma_be32_roundtrip, lemma_s16_roundtrip, read_i16, read_u16, read_u32, s16};
use crate::buffer::Buffer;
use crate::packet::{find_table, table_data, Packet};
use crate::tag::TAG_OS_2;

verus! {

/// An OS/2 table (all versions; fields a version lacks are 0).
#[derive(Copy, Clone, Debug)]
pub struct Os2Table {
    pub version: u16,
    pub xAvgCharWidth: i16,
    pub usWeightClass: u16,
    pub usWidthClass: u16,
    pub fsType: u16,
    pub ySubscriptXSize: i16,
    pub ySubscriptYSize: i16,
    pub ySubscriptXOffset: i16,
    pub ySubscriptYOffset: i16,
    pub ySupscriptXSize: i16,
    pub ySupscriptYSize: i16,
    pub ySupscriptXOffset: i16,
    pub ySupscriptYOffset: i16,
    pub yStrikeoutSize: i16,
    pub yStrikeoutPosition: i16,
    pub sFamilyClass: i16,
    pub panose: [u8; 10],
    pub ulUnicodeRange1: u32,
    pub ulUnicodeRange2: u32,
    pub ulUnicodeRange3: u32,
    pub ulUnicodeRange4: u32,
    pub achVendID: [u8; 4],
    pub fsSelection: u16,
    pub usFirstCharIndex: u16,
    pub usLastCharIndex: u16,
    pub sTypoAscender: i16,
    pub sTypoDescender: i16,
    pub sTypoLineGap: i16,
    pub usWinAscent: u16,
    pub usWinDescent: u16,
    pub ulCodePageRange1: u32,
    pub ulCodePageRange2: u32,
    pub sxHeight: i16,
    pub sCapHeight: i16,
    pub usDefaultChar: u16,
    pub usBreakChar: u16,
    pub usMaxContext: u16,
    pub usLowerOpticalPointSize: u16,
    pub usUpperOpticalPointSize: u16,
}

/// The table is readable: the version-0 fields (68 bytes) fit, and the
/// fields of versions 1, 2 and 5 fit whenever the version has them.
pub open spec fn os2_ok(d: Seq<u8>) -> bool {
    let v = be16(d, 0);
    &&& fits(d, 0, 68)
    &&& (v >= 1 ==> fits(d, 0, 86))
    &&& (v >= 2 ==> fits(d, 0, 96))
    &&& (v >= 5 ==> fits(d, 0, 100))
}

/// `t` holds the fields of the table held in `d`: the fields before the
/// typographic metrics always; those up to `usWinDescent` when the table
/// has 78 bytes; the others as its version has them; 0 for the rest.  A
/// version-5 table's two optical point sizes end up as
/// `usLowerOpticalPointSize` = the upper size, `usUpperOpticalPointSize` = 0.
pub open spec fn os2_matches(t: Os2Table, d: Seq<u8>) -> bool {
    let v = be16(d, 0);
    &&& t.version == v
    &&& t.xAvgCharWidth == s16(be16(d, 2))
    &&& t.usWeightClass == be16(d, 4)
    &&& t.usWidthClass == be16(d, 6)
    &&& t.fsType == be16(d, 8)
    &&& t.ySubscriptXSize == s16(be16(d, 10))
    &&& t.ySubscriptYSize == s16(be16(d, 12))
    &&& t.ySubscriptXOffset == s16(be16(d, 14))
    &&& t.ySubscriptYOffset == s16(be16(d, 16))
    &&& t.ySupscriptXSize == s16(be16(d, 18))
    &&& t.ySupscriptYSize == s16(be16(d, 20))
    &&& t.ySupscriptXOffset == s16(be16(d, 22))
    &&& t.ySupscriptYOffset == s16(be16(d, 24))
    &&& t.yStrikeoutSize == s16(be16(d, 26))
    &&& t.yStrikeoutPosition == s16(be16(d, 28))
    &&& t.sFamilyClass == s16(be16(d, 30))
    &&& t.panose@ == d.subrange(32, 42)
    &&& t.ulUnicodeRange1 == be32(d, 42)
    &&& t.ulUnicodeRange2 == be32(d, 46)
    &&& t.ulUnicodeRange3 == be32(d, 50)
    &&& t.ulUnicodeRange4 == be32(d, 54)
    &&& t.achVendID@ == d.subrange(58, 62)
    &&& t.fsSelection == be16(d, 62)
    &&& t.usFirstCharIndex == be16(d, 64)
    &&& t.usLastCharIndex == be16(d, 66)
    &&& if fits(d, 0, 78) {
        &&& t.sTypoAscender == s16(be16(d, 68))
        &&& t.sTypoDescender == s16(be16(d, 70))
        &&& t.sTypoLineGap == s16(be16(d, 72))
        &&& t.usWinAscent == be16(d, 74)
        &&& t.usWinDescent == be16(d, 76)
    } else {
        &&& t.sTypoAscender == 0
        &&& t.sTypoDescender == 0
        &&& t.sTypoLineGap == 0
        &&& t.usWinAscent == 0
        &&& t.usWinDescent == 0
    }
    &&& if v >= 1 {
        &&& t.ulCodePageRange1 == be32(d, 78)
        &&& t.ulCodePageRange2 == be32(d, 82)
    } else {
        &&& t.ulCodePageRange1 == 0
        &&& t.ulCodePageRange2 == 0
    }
    &&& if v >= 2 {
        &&& t.sxHeight == s16(be16(d, 86))
        &&& t.sCapHeight == s16(be16(d, 88))
        &&& t.usDefaultChar == be16(d, 90)
        &&& t.usBreakChar == be16(d, 92)
        &&& t.usMaxContext == be16(d, 94)
    } else {
        &&& t.sxHeight == 0
        &&& t.sCapHeight == 0
        &&& t.usDefaultChar == 0
        &&& t.usBreakChar == 0
        &&& t.usMaxContext == 0
    }
    &&& t.usLowerOpticalPointSize == (if v >= 5 { be16(d, 98) } else { 0 })
    &&& t.usUpperOpticalPointSize == 0
}

/// The fields of the table held in `data`; `None` when the version-0
/// fields, or the fields its version adds, do not fit.
pub fn read_os_2(data: &[u8]) -> (r: Option<Os2Table>)
    ensures
        match r {
            Some(t) => os2_ok(data@) && os2_matches(t, data@),
            None => !os2_ok(data@),
        },
{
    let ghost d = data@;
    let len = data.len();
    let version = read_u16(data, 0)?;
    if len < 68 {
        return None;
    }
    let xAvgCharWidth = read_i16(data, 2).unwrap();
    let usWeightClass = read_u16(data, 4).unwrap();
    let usWidthClass = read_u16(data, 6).unwrap();
    let fsType = read_u16(data, 8).unwrap();
    let fsSelection = read_u16(data, 62).unwrap();
    let usFirstCharIndex = read_u16(data, 64).unwrap();
    let usLastCharIndex = read_u16(data, 66).unwrap();
    let ySubscriptXSize = read_i16(data, 10).unwrap();
    let ySubscriptYSize = read_i16(data, 12).unwrap();
    let ySubscriptXOffset = read_i16(data, 14).unwrap();
    let ySubscriptYOffset = read_i16(data, 16).unwrap();
    let ySupscriptXSize = read_i16(data, 18).unwrap();
    let ySupscriptYSize = read_i16(data, 20).unwrap();
    let ySupscriptXOffset = read_i16(data, 22).unwrap();
    let ySupscriptYOffset = read_i16(data, 24).unwrap();
    let yStrikeoutSize = read_i16(data, 26).unwrap();
    let yStrikeoutPosition = read_i16(data, 28).unwrap();
    let sFamilyClass = read_i16(data, 30).unwrap();
    let ulUnicodeRange1 = read_u32(data, 42).unwrap();
    let ulUnicodeRange2 = read_u32(data, 46).unwrap();
    let ulUnicodeRange3 = read_u32(data, 50).unwrap();
    let ulUnicodeRange4 = read_u32(data, 54).unwrap();
    let panose: [u8; 10] = [data[32], data[33], data[34], data[35], data[36], data[37], data[38], data[39], data[40], data[41]];
    let achVendID: [u8; 4] = [data[58], data[59], data[60], data[61]];
    assert(panose@ =~= d.subrange(32, 42));
    assert(achVendID@ =~= d.subrange(58, 62));
    let mut t = Os2Table {
        version,
        xAvgCharWidth,
        usWeightClass,
        usWidthClass,
        fsType,
        ySubscriptXSize,
        ySubscriptYSize,
        ySubscriptXOffset,
        ySubscriptYOffset,
        ySupscriptXSize,
        ySupscriptYSize,
        ySupscriptXOffset,
        ySupscriptYOffset,
        yStrikeoutSize,
        yStrikeoutPosition,
        sFamilyClass,
        panose,
        ulUnicodeRange1,
        ulUnicodeRange2,
        ulUnicodeRange3,
        ulUnicodeRange4,
        achVendID,
        fsSelection,
        usFirstCharIndex,
        usLastCharIndex,
        sTypoAscender: 0,
        sTypoDescender: 0,
        sTypoLineGap: 0,
        usWinAscent: 0,
        usWinDescent: 0,
        ulCodePageRange1: 0,
        ulCodePageRange2: 0,
        sxHeight: 0,
        sCapHeight: 0,
        usDefaultChar: 0,
        usBreakChar: 0,
        usMaxContext: 0,
        usLowerOpticalPointSize: 0,
        usUpperOpticalPointSize: 0,
    };
    if len >= 78 {
        t.sTypoAscender = read_i16(data, 68).unwrap();
        t.sTypoDescender = read_i16(data, 70).unwrap();
        t.sTypoLineGap = read_i16(data, 72).unwrap();
        t.usWinAscent = read_u16(data, 74).unwrap();
        t.usWinDescent = read_u16(data, 76).unwrap();
    }
    if version >= 1 && len < 86 {
        return None;
    }
    if version >= 1 {
        t.ulCodePageRange1 = read_u32(data, 78).unwrap();
        t.ulCodePageRange2 = read_u32(data, 82).unwrap();
    }
    if version >= 2 && len < 96 {
        return None;
    }
    if version >= 2 {
        t.sxHeight = read_i16(data, 86).unwrap();
        t.sCapHeight = read_i16(data, 88).unwrap();
        t.usDefaultChar = read_u16(data, 90).unwrap();
        t.usBreakChar = read_u16(data, 92).unwrap();
        t.usMaxContext = read_u16(data, 94).unwrap();
    }
    if version >= 5 && len < 100 {
        return None;
    }
    if version >= 5 {
        t.usLowerOpticalPointSize = read_u16(data, 96).unwrap();
        t.usLowerOpticalPointSize = read_u16(data, 98).unwrap();
    }
    Some(t)
}

/// Reading an OS/2 table: it is readable exactly when its 68-byte
/// version-0 part fits, and the parts versions 1 (to 86 bytes), 2 (to 96)
/// and 5 (to 100) add fit for the versions that have them.  Then every
/// field is the big-endian word or double word at its place in the table
/// (signed where the field is); the typographic metrics only when the table
/// has 78 bytes, the code page ranges from version 1 on, the version-2
/// fields from version 2 on, 0 otherwise; from version 5 on the upper
/// optical point size (bytes 98-99) lands in `usLowerOpticalPointSize` and
/// `usUpperOpticalPointSize` is 0.
pub proof fn lemma_os2_read_law(t: Os2Table, d: Seq<u8>)
    ensures
        os2_ok(d) <==> (d.len() >= 68 && (be16(d, 0) >= 1 ==> d.len() >= 86)
            && (be16(d, 0) >= 2 ==> d.len() >= 96) && (be16(d, 0) >= 5 ==> d.len() >= 100)),
        os2_ok(d) && os2_matches(t, d) ==> ({
            &&& t.version == be16(d, 0)
            &&& t.xAvgCharWidth == s16(be16(d, 2))
            &&& t.usWeightClass == be16(d, 4)
            &&& t.usWidthClass == be16(d, 6)
            &&& t.fsType == be16(d, 8)
            &&& t.ySubscriptXSize == s16(be16(d, 10))
            &&& t.ySubscriptYSize == s16(be16(d, 12))
            &&& t.ySubscriptXOffset == s16(be16(d, 14))
            &&& t.ySubscriptYOffset == s16(be16(d, 16))
            &&& t.ySupscriptXSize == s16(be16(d, 18))
            &&& t.ySupscriptYSize == s16(be16(d, 20))
            &&& t.ySupscriptXOffset == s16(be16(d, 22))
            &&& t.ySupscriptYOffset == s16(be16(d, 24))
            &&& t.yStrikeoutSize == s16(be16(d, 26))
            &&& t.yStrikeoutPosition == s16(be16(d, 28))
            &&& t.sFamilyClass == s16(be16(d, 30))
            &&& t.ulUnicodeRange1 == be32(d, 42)
            &&& t.ulUnicodeRange2 == be32(d, 46)
            &&& t.ulUnicodeRange3 == be32(d, 50)
            &&& t.ulUnicodeRange4 == be32(d, 54)
            &&& t.fsSelection == be16(d, 62)
            &&& t.usFirstCharIndex == be16(d, 64)
            &&& t.usLastCharIndex == be16(d, 66)
            &&& t.panose@ == d.subrange(32, 42)
            &&& t.achVendID@ == d.subrange(58, 62)
            &&& t.sTypoAscender == (if d.len() >= 78 { s16(be16(d, 68)) } else { 0 })
            &&& t.sTypoDescender == (if d.len() >= 78 { s16(be16(d, 70)) } else { 0 })
            &&& t.sTypoLineGap == (if d.len() >= 78 { s16(be16(d, 72)) } else { 0 })
            &&& t.usWinAscent == (if d.len() >= 78 { be16(d, 74) } else { 0 })
            &&& t.usWinDescent == (if d.len() >= 78 { be16(d, 76) } else { 0 })
            &&& t.ulCodePageRange1 == (if be16(d, 0) >= 1 { be32(d, 78) } else { 0 })
            &&& t.ulCodePageRange2 == (if be16(d, 0) >= 1 { be32(d, 82) } else { 0 })
            &&& t.sxHeight == (if be16(d, 0) >= 2 { s16(be16(d, 86)) } else { 0 })
            &&& t.sCapHeight == (if be16(d, 0) >= 2 { s16(be16(d, 88)) } else { 0 })
            &&& t.usDefaultChar == (if be16(d, 0) >= 2 { be16(d, 90) } else { 0 })
            &&& t.usBreakChar == (if be16(d, 0) >= 2 { be16(d, 92) } else { 0 })
            &&& t.usMaxContext == (if be16(d, 0) >= 2 { be16(d, 94) } else { 0 })
            &&& t.usLowerOpticalPointSize == (if be16(d, 0) >= 5 { be16(d, 98) } else { 0 })
            &&& t.usUpperOpticalPointSize == 0
        }),
{
}

/// The OS/2 table of `packet`: `None` when there is none or it is corrupted.
pub fn otfcc_read_os_2(packet: &Packet) -> (r: Option<Os2Table>)
    ensures
        match table_data(packet.pieces@, TAG_OS_2) {
            Some(d) => match r {
                Some(t) => os2_ok(d) && os2_matches(t, d),
                None => !os2_ok(d),
            },
            None => r is None,
        },
{
    let data = find_table(packet, TAG_OS_2)?;
    read_os_2(data)
}

/// The subscript fields, with the fields before them (bytes 0 to 16).
pub open spec fn os2_bytes_head(t: Os2Table) -> Seq<u8> {
    be16_bytes(t.version)
        + be16_bytes(t.xAvgCharWidth as u16)
        + be16_bytes(t.usWeightClass)
        + be16_bytes(t.usWidthClass)
        + be16_bytes(t.fsType)
        + be16_bytes(t.ySubscriptXSize as u16)
        + be16_bytes(t.ySubscriptYSize as u16)
        + be16_bytes(t.ySubscriptXOffset as u16)
}

/// Bytes 16 to 32: the superscript and strikeout fields and the family class.
pub open spec fn os2_bytes_script(t: Os2Table) -> Seq<u8> {
    be16_bytes(t.ySubscriptYOffset as u16)
        + be16_bytes(t.ySupscriptXSize as u16)
        + be16_bytes(t.ySupscriptYSize as u16)
        + be16_bytes(t.ySupscriptXOffset as u16)
        + be16_bytes(t.ySupscriptYOffset as u16)
        + be16_bytes(t.yStrikeoutSize as u16)
        + be16_bytes(t.yStrikeoutPosition as u16)
        + be16_bytes(t.sFamilyClass as u16)
}

/// Bytes 42 to 58: the Unicode ranges.
pub open spec fn os2_bytes_ranges(t: Os2Table) -> Seq<u8> {
    be32_bytes(t.ulUnicodeRange1)
        + be32_bytes(t.ulUnicodeRange2)
        + be32_bytes(t.ulUnicodeRange3)
        + be32_bytes(t.ulUnicodeRange4)
}

/// Bytes 62 to 78: selection, character range and typographic metrics.
pub open spec fn os2_bytes_metrics(t: Os2Table) -> Seq<u8> {
    be16_bytes(t.fsSelection)
        + be16_bytes(t.usFirstCharIndex)
        + be16_bytes(t.usLastCharIndex)
        + be16_bytes(t.sTypoAscender as u16)
        + be16_bytes(t.sTypoDescender as u16)
        + be16_bytes(t.sTypoLineGap as u16)
        + be16_bytes(t.usWinAscent)
        + be16_bytes(t.usWinDescent)
}

/// Bytes 78 to 86: the code page ranges.
pub open spec fn os2_bytes_codepages(t: Os2Table) -> Seq<u8> {
    be32_bytes(t.ulCodePageRange1) + be32_bytes(t.ulCodePageRange2)
}

/// The 86 bytes every written table has: the fields up to the code page ranges.
pub open spec fn os2_bytes_v1(t: Os2Table) -> Seq<u8> {
    os2_bytes_head(t)
        + os2_bytes_script(t)
        + t.panose@
        + os2_bytes_ranges(t)
        + t.achVendID@
        + os2_bytes_metrics(t)
        + os2_bytes_codepages(t)
}

/// The 10 bytes version 2 adds.
pub open spec fn os2_bytes_v2(t: Os2Table) -> Seq<u8> {
    be16_bytes(t.sxHeight as u16)
        + be16_bytes(t.sCapHeight as u16)
        + be16_bytes(t.usDefaultChar)
        + be16_bytes(t.usBreakChar)
        + be16_bytes(t.usMaxContext)
}

/// The 4 bytes version 5 adds.
pub open spec fn os2_bytes_v5(t: Os2Table) -> Seq<u8> {
    be16_bytes(t.usLowerOpticalPointSize)
        + be16_bytes(t.usUpperOpticalPointSize)
}

/// The bytes written for `t`: versions below 2 stop after the code page
/// ranges, versions below 5 after `usMaxContext`.
pub open spec fn os2_bytes(t: Os2Table) -> Seq<u8> {
    if t.version < 2 {
        os2_bytes_v1(t)
    } else if t.version < 5 {
        os2_bytes_v1(t) + os2_bytes_v2(t)
    } else {
        os2_bytes_v1(t) + os2_bytes_v2(t) + os2_bytes_v5(t)
    }
}

/// Writes `os_2`; nothing for no table.
pub fn otfcc_build_os_2(os_2: Option<&Os2Table>) -> (r: Option<Buffer>)
    ensures
        match os_2 {
            Some(t) => r matches Some(b) && b@ == os2_bytes(*t),
            None => r is None,
        },
{
    let t = match os_2 {
        Some(t) => t,
        None => return None,
    };
    let mut buf = Buffer::new();
    buf.write_u16be(t.version);
    buf.write_u16be(t.xAvgCharWidth as u16);
    buf.write_u16be(t.usWeightClass);
    buf.write_u16be(t.usWidthClass);
    buf.write_u16be(t.fsType);
    buf.write_u16be(t.ySubscriptXSize as u16);
    buf.write_u16be(t.ySubscriptYSize as u16);
    buf.write_u16be(t.ySubscriptXOffset as u16);
    let ghost g1 = buf@;
    assert(g1 =~= os2_bytes_head(*t));
    buf.write_u16be(t.ySubscriptYOffset as u16);
    buf.write_u16be(t.ySupscriptXSize as u16);
    buf.write_u16be(t.ySupscriptYSize as u16);
    buf.write_u16be(t.ySupscriptXOffset as u16);
    buf.write_u16be(t.ySupscriptYOffset as u16);
    buf.write_u16be(t.yStrikeoutSize as u16);
    buf.write_u16be(t.yStrikeoutPosition as u16);
    buf.write_u16be(t.sFamilyClass as u16);
    assert(buf@ =~= g1 + os2_bytes_script(*t));
    buf.write_bytes(&t.panose);
    let ghost g3 = buf@;
    buf.write_u32be(t.ulUnicodeRange1);
    buf.write_u32be(t.ulUnicodeRange2);
    buf.write_u32be(t.ulUnicodeRange3);
    buf.write_u32be(t.ulUnicodeRange4);
    assert(buf@ =~= g3 + os2_bytes_ranges(*t));
    buf.write_bytes(&t.achVendID);
    let ghost g5 = buf@;
    buf.write_u16be(t.fsSelection);
    buf.write_u16be(t.usFirstCharIndex);
    buf.write_u16be(t.usLastCharIndex);
    buf.write_u16be(t.sTypoAscender as u16);
    buf.write_u16be(t.sTypoDescender as u16);
    buf.write_u16be(t.sTypoLineGap as u16);
    buf.write_u16be(t.usWinAscent);
    buf.write_u16be(t.usWinDescent);
    assert(buf@ =~= g5 + os2_bytes_metrics(*t));
    let ghost g6 = buf@;
    buf.write_u32be(t.ulCodePageRange1);
    buf.write_u32be(t.ulCodePageRange2);
    assert(buf@ =~= g6 + os2_bytes_codepages(*t));
    assert(buf@ =~= os2_bytes_v1(*t));
    if t.version < 2 {
        return Some(buf);
    }
    buf.write_u16be(t.sxHeight as u16);
    buf.write_u16be(t.sCapHeight as u16);
    buf.write_u16be(t.usDefaultChar);
    buf.write_u16be(t.usBreakChar);
    buf.write_u16be(t.usMaxContext);
    proof {
        assert(buf@ =~= os2_bytes_v1(*t) + os2_bytes_v2(*t));
    }
    if t.version < 5 {
        return Some(buf);
    }
    buf.write_u16be(t.usLowerOpticalPointSize);
    buf.write_u16be(t.usUpperOpticalPointSize);
    proof {
        assert(buf@ =~= os2_bytes_v1(*t) + os2_bytes_v2(*t) + os2_bytes_v5(*t));
    }
    Some(buf)
}


/// What reading back the table written for `t` gives: the code page ranges
/// only from version 1 on, the version-2 fields only from version 2 on,
/// and from version 5 on the upper optical point size as
/// `usLowerOpticalPointSize`, with `usUpperOpticalPointSize` = 0.
pub open spec fn os2_read_back(t: Os2Table) -> Os2Table {
    let v = t.version;
    Os2Table {
        ulCodePageRange1: if v >= 1 { t.ulCodePageRange1 } else { 0 },
        ulCodePageRange2: if v >= 1 { t.ulCodePageRange2 } else { 0 },
        sxHeight: if v >= 2 { t.sxHeight } else { 0 },
        sCapHeight: if v >= 2 { t.sCapHeight } else { 0 },
        usDefaultChar: if v >= 2 { t.usDefaultChar } else { 0 },
        usBreakChar: if v >= 2 { t.usBreakChar } else { 0 },
        usMaxContext: if v >= 2 { t.usMaxContext } else { 0 },
        usLowerOpticalPointSize: if v >= 5 { t.usUpperOpticalPointSize } else { 0 },
        usUpperOpticalPointSize: 0,
        ..t
    }
}

/// Where each field stands in `os2_bytes_head`.
proof fn lemma_os2_bytes_head(t: Os2Table)
    ensures
        os2_bytes_head(t).len() == 16,
        be16(os2_bytes_head(t), 0) == t.version,
        s16(be16(os2_bytes_head(t), 2)) == t.xAvgCharWidth,
        be16(os2_bytes_head(t), 4) == t.usWeightClass,
        be16(os2_bytes_head(t), 6) == t.usWidthClass,
        be16(os2_bytes_head(t), 8) == t.fsType,
        s16(be16(os2_bytes_head(t), 10)) == t.ySubscriptXSize,
        s16(be16(os2_bytes_head(t), 12)) == t.ySubscriptYSize,
        s16(be16(os2_bytes_head(t), 14)) == t.ySubscriptXOffset,
{
    let g = os2_bytes_head(t);
    assert(g.subrange(0, 2) =~= be16_bytes(t.version));
    lemma_be16_roundtrip(g, 0, t.version);
    assert(g.subrange(2, 4) =~= be16_bytes(t.xAvgCharWidth as u16));
    lemma_be16_roundtrip(g, 2, t.xAvgCharWidth as u16);
    lemma_s16_roundtrip(t.xAvgCharWidth);
    assert(g.subrange(4, 6) =~= be16_bytes(t.usWeightClass));
    lemma_be16_roundtrip(g, 4, t.usWeightClass);
    assert(g.subrange(6, 8) =~= be16_bytes(t.usWidthClass));
    lemma_be16_roundtrip(g, 6, t.usWidthClass);
    assert(g.subrange(8, 10) =~= be16_bytes(t.fsType));
    lemma_be16_roundtrip(g, 8, t.fsType);
    assert(g.subrange(10, 12) =~= be16_bytes(t.ySubscriptXSize as u16));
    lemma_be16_roundtrip(g, 10, t.ySubscriptXSize as u16);
    lemma_s16_roundtrip(t.ySubscriptXSize);
    assert(g.subrange(12, 14) =~= be16_bytes(t.ySubscriptYSize as u16));
    lemma_be16_roundtrip(g, 12, t.ySubscriptYSize as u16);
    lemma_s16_roundtrip(t.ySubscriptYSize);
    assert(g.subrange(14, 16) =~= be16_bytes(t.ySubscriptXOffset as u16));
    lemma_be16_roundtrip(g, 14, t.ySubscriptXOffset as u16);
    lemma_s16_roundtrip(t.ySubscriptXOffset);
}

/// Where each field stands in `os2_bytes_script`.
proof fn lemma_os2_bytes_script(t: Os2Table)
    ensures
        os2_bytes_script(t).len() == 16,
        s16(be16(os2_bytes_script(t), 0)) == t.ySubscriptYOffset,
        s16(be16(os2_bytes_script(t), 2)) == t.ySupscriptXSize,
        s16(be16(os2_bytes_script(t), 4)) == t.ySupscriptYSize,
        s16(be16(os2_bytes_script(t), 6)) == t.ySupscriptXOffset,
        s16(be16(os2_bytes_script(t), 8)) == t.ySupscriptYOffset,
        s16(be16(os2_bytes_script(t), 10)) == t.yStrikeoutSize,
        s16(be16(os2_bytes_script(t), 12)) == t.yStrikeoutPosition,
        s16(be16(os2_bytes_script(t), 14)) == t.sFamilyClass,
{
    let g = os2_bytes_script(t);
    assert(g.subrange(0, 2) =~= be16_bytes(t.ySubscriptYOffset as u16));
    lemma_be16_roundtrip(g, 0, t.ySubscriptYOffset as u16);
    lemma_s16_roundtrip(t.ySubscriptYOffset);
    assert(g.subrange(2, 4) =~= be16_bytes(t.ySupscriptXSize as u16));
    lemma_be16_roundtrip(g, 2, t.ySupscriptXSize as u16);
    lemma_s16_roundtrip(t.ySupscriptXSize);
    assert(g.subrange(4, 6) =~= be16_bytes(t.ySupscriptYSize as u16));
    lemma_be16_roundtrip(g, 4, t.ySupscriptYSize as u16);
    lemma_s16_roundtrip(t.ySupscriptYSize);
    assert(g.subrange(6, 8) =~= be16_bytes(t.ySupscriptXOffset as u16));
    lemma_be16_roundtrip(g, 6, t.ySupscriptXOffset as u16);
    lemma_s16_roundtrip(t.ySupscriptXOffset);
    assert(g.subrange(8, 10) =~= be16_bytes(t.ySupscriptYOffset as u16));
    lemma_be16_roundtrip(g, 8, t.ySupscriptYOffset as u16);
    lemma_s16_roundtrip(t.ySupscriptYOffset);
    assert(g.subrange(10, 12) =~= be16_bytes(t.yStrikeoutSize as u16));
    lemma_be16_roundtrip(g, 10, t.yStrikeoutSize as u16);
    lemma_s16_roundtrip(t.yStrikeoutSize);
    assert(g.subrange(12, 14) =~= be16_bytes(t.yStrikeoutPosition as u16));
    lemma_be16_roundtrip(g, 12, t.yStrikeoutPosition as u16);
    lemma_s16_roundtrip(t.yStrikeoutPosition);
    assert(g.subrange(14, 16) =~= be16_bytes(t.sFamilyClass as u16));
    lemma_be16_roundtrip(g, 14, t.sFamilyClass as u16);
    lemma_s16_roundtrip(t.sFamilyClass);
}

/// Where each field stands in `os2_bytes_ranges`.
proof fn lemma_os2_bytes_ranges(t: Os2Table)
    ensures
        os2_bytes_ranges(t).len() == 16,
        be32(os2_bytes_ranges(t), 0) == t.ulUnicodeRange1,
        be32(os2_bytes_ranges(t), 4) == t.ulUnicodeRange2,
        be32(os2_bytes_ranges(t), 8) == t.ulUnicodeRange3,
        be32(os2_bytes_ranges(t), 12) == t.ulUnicodeRange4,
{
    let g = os2_bytes_ranges(t);
    assert(g.subrange(0, 4) =~= be32_bytes(t.ulUnicodeRange1));
    lemma_be32_roundtrip(g, 0, t.ulUnicodeRange1);
    assert(g.subrange(4, 8) =~= be32_bytes(t.ulUnicodeRange2));
    lemma_be32_roundtrip(g, 4, t.ulUnicodeRange2);
    assert(g.subrange(8, 12) =~= be32_bytes(t.ulUnicodeRange3));
    lemma_be32_roundtrip(g, 8, t.ulUnicodeRange3);
    assert(g.subrange(12, 16) =~= be32_bytes(t.ulUnicodeRange4));
    lemma_be32_roundtrip(g, 12, t.ulUnicodeRange4);
}

/// Where each field stands in `os2_bytes_metrics`.
proof fn lemma_os2_bytes_metrics(t: Os2Table)
    ensures
        os2_bytes_metrics(t).len() == 16,
        be16(os2_bytes_metrics(t), 0) == t.fsSelection,
        be16(os2_bytes_metrics(t), 2) == t.usFirstCharIndex,
        be16(os2_bytes_metrics(t), 4) == t.usLastCharIndex,
        s16(be16(os2_bytes_metrics(t), 6)) == t.sTypoAscender,
        s16(be16(os2_bytes_metrics(t), 8)) == t.sTypoDescender,
        s16(be16(os2_bytes_metrics(t), 10)) == t.sTypoLineGap,
        be16(os2_bytes_metrics(t), 12) == t.usWinAscent,
        be16(os2_bytes_metrics(t), 14) == t.usWinDescent,
{
    let g = os2_bytes_metrics(t);
    assert(g.subrange(0, 2) =~= be16_bytes(t.fsSelection));
    lemma_be16_roundtrip(g, 0, t.fsSelection);
    assert(g.subrange(2, 4) =~= be16_bytes(t.usFirstCharIndex));
    lemma_be16_roundtrip(g, 2, t.usFirstCharIndex);
    assert(g.subrange(4, 6) =~= be16_bytes(t.usLastCharIndex));
    lemma_be16_roundtrip(g, 4, t.usLastCharIndex);
    assert(g.subrange(6, 8) =~= be16_bytes(t.sTypoAscender as u16));
    lemma_be16_roundtrip(g, 6, t.sTypoAscender as u16);
    lemma_s16_roundtrip(t.sTypoAscender);
    assert(g.subrange(8, 10) =~= be16_bytes(t.sTypoDescender as u16));
    lemma_be16_roundtrip(g, 8, t.sTypoDescender as u16);
    lemma_s16_roundtrip(t.sTypoDescender);
    assert(g.subrange(10, 12) =~= be16_bytes(t.sTypoLineGap as u16));
    lemma_be16_roundtrip(g, 10, t.sTypoLineGap as u16);
    lemma_s16_roundtrip(t.sTypoLineGap);
    assert(g.subrange(12, 14) =~= be16_bytes(t.usWinAscent));
    lemma_be16_roundtrip(g, 12, t.usWinAscent);
    assert(g.subrange(14, 16) =~= be16_bytes(t.usWinDescent));
    lemma_be16_roundtrip(g, 14, t.usWinDescent);
}

/// Where each field stands in `os2_bytes_codepages`.
proof fn lemma_os2_bytes_codepages(t: Os2Table)
    ensures
        os2_bytes_codepages(t).len() == 8,
        be32(os2_bytes_codepages(t), 0) == t.ulCodePageRange1,
        be32(os2_bytes_codepages(t), 4) == t.ulCodePageRange2,
{
    let g = os2_bytes_codepages(t);
    assert(g.subrange(0, 4) =~= be32_bytes(t.ulCodePageRange1));
    lemma_be32_roundtrip(g, 0, t.ulCodePageRange1);
    assert(g.subrange(4, 8) =~= be32_bytes(t.ulCodePageRange2));
    lemma_be32_roundtrip(g, 4, t.ulCodePageRange2);
}

/// Where each field stands in `os2_bytes_v2`.
proof fn lemma_os2_bytes_v2(t: Os2Table)
    ensures
        os2_bytes_v2(t).len() == 10,
        s16(be16(os2_bytes_v2(t), 0)) == t.sxHeight,
        s16(be16(os2_bytes_v2(t), 2)) == t.sCapHeight,
        be16(os2_bytes_v2(t), 4) == t.usDefaultChar,
        be16(os2_bytes_v2(t), 6) == t.usBreakChar,
        be16(os2_bytes_v2(t), 8) == t.usMaxContext,
{
    let g = os2_bytes_v2(t);
    assert(g.subrange(0, 2) =~= be16_bytes(t.sxHeight as u16));
    lemma_be16_roundtrip(g, 0, t.sxHeight as u16);
    lemma_s16_roundtrip(t.sxHeight);
    assert(g.subrange(2, 4) =~= be16_bytes(t.sCapHeight as u16));
    lemma_be16_roundtrip(g, 2, t.sCapHeight as u16);
    lemma_s16_roundtrip(t.sCapHeight);
    assert(g.subrange(4, 6) =~= be16_bytes(t.usDefaultChar));
    lemma_be16_roundtrip(g, 4, t.usDefaultChar);
    assert(g.subrange(6, 8) =~= be16_bytes(t.usBreakChar));
    lemma_be16_roundtrip(g, 6, t.usBreakChar);
    assert(g.subrange(8, 10) =~= be16_bytes(t.usMaxContext));
    lemma_be16_roundtrip(g, 8, t.usMaxContext);
}

/// Where each field stands in `os2_bytes_v5`.
proof fn lemma_os2_bytes_v5(t: Os2Table)
    ensures
        os2_bytes_v5(t).len() == 4,
        be16(os2_bytes_v5(t), 0) == t.usLowerOpticalPointSize,
        be16(os2_bytes_v5(t), 2) == t.usUpperOpticalPointSize,
{
    let g = os2_bytes_v5(t);
    assert(g.subrange(0, 2) =~= be16_bytes(t.usLowerOpticalPointSize));
    lemma_be16_roundtrip(g, 0, t.usLowerOpticalPointSize);
    assert(g.subrange(2, 4) =~= be16_bytes(t.usUpperOpticalPointSize));
    lemma_be16_roundtrip(g, 2, t.usUpperOpticalPointSize);
}

/// The first 86 written bytes hold the fields up to the code page ranges,
/// each group of fields where the layout places it.
proof fn lemma_os2_bytes_v1(t: Os2Table)
    ensures
        ({
            let a = os2_bytes_v1(t);
            &&& a.len() == 86
            &&& forall|i: int| 0 <= i < 16 ==> a[i] == #[trigger] os2_bytes_head(t)[i]
            &&& forall|i: int| 16 <= i < 32 ==> a[i] == #[trigger] os2_bytes_script(t)[i - 16]
            &&& a.subrange(32, 42) == t.panose@
            &&& forall|i: int| 42 <= i < 58 ==> a[i] == #[trigger] os2_bytes_ranges(t)[i - 42]
            &&& a.subrange(58, 62) == t.achVendID@
            &&& forall|i: int| 62 <= i < 78 ==> a[i] == #[trigger] os2_bytes_metrics(t)[i - 62]
            &&& forall|i: int| 78 <= i < 86 ==> a[i] == #[trigger] os2_bytes_codepages(t)[i - 78]
        }),
{
    lemma_os2_bytes_head(t);
    lemma_os2_bytes_script(t);
    lemma_os2_bytes_ranges(t);
    lemma_os2_bytes_metrics(t);
    lemma_os2_bytes_codepages(t);
    let a = os2_bytes_v1(t);
    assert(a.subrange(32, 42) =~= t.panose@);
    assert(a.subrange(58, 62) =~= t.achVendID@);
}

/// A written OS/2 table is readable, and reading it back gives the table
/// with the fields its version lacks cleared (and the optical sizes as the
/// reader places them).
pub proof fn lemma_os2_roundtrip(t: Os2Table)
    ensures
        os2_ok(os2_bytes(t)),
        os2_matches(os2_read_back(t), os2_bytes(t)),
{
    lemma_os2_bytes_head(t);
    lemma_os2_bytes_script(t);
    lemma_os2_bytes_ranges(t);
    lemma_os2_bytes_metrics(t);
    lemma_os2_bytes_codepages(t);
    lemma_os2_bytes_v2(t);
    lemma_os2_bytes_v5(t);
    lemma_os2_bytes_v1(t);
    let a = os2_bytes_v1(t);
    let d = os2_bytes(t);
    assert forall|i: int| 0 <= i < 86 implies d[i] == #[trigger] a[i] by {}
    if t.version >= 2 {
        assert forall|i: int| 86 <= i < 96 implies d[i] == #[trigger] os2_bytes_v2(t)[i - 86] by {}
    }
    if t.version >= 5 {
        assert forall|i: int| 96 <= i < 100 implies d[i] == #[trigger] os2_bytes_v5(t)[i - 96] by {}
    }
    assert(d.subrange(32, 42) =~= a.subrange(32, 42));
    assert(d.subrange(58, 62) =~= a.subrange(58, 62));
}

} // verus!
