//! Four-byte table tags, as big-endian integers.
use vstd::prelude::*;

verus! {

/// `BASE`
pub const TAG_BASE: u32 = 0x42415345;
/// `COLR`
pub const TAG_COLR: u32 = 0x434f4c52;
/// `CPAL`
pub const TAG_CPAL: u32 = 0x4350414c;
/// `GDEF`
pub const TAG_GDEF: u32 = 0x47444546;
/// `LTSH`
pub const TAG_LTSH: u32 = 0x4c545348;
/// `OS/2`
pub const TAG_OS_2: u32 = 0x4f532f32;
/// `SVG `
pub const TAG_SVG: u32 = 0x53564720;
/// `TSI0`
pub const TAG_TSI0: u32 = 0x54534930;
/// `TSI1`
pub const TAG_TSI1: u32 = 0x54534931;
/// `TSI2`
pub const TAG_TSI2: u32 = 0x54534932;
/// `TSI3`
pub const TAG_TSI3: u32 = 0x54534933;
/// `TSI5`
pub const TAG_TSI5: u32 = 0x54534935;
/// `VORG`
pub const TAG_VORG: u32 = 0x564f5247;

} // verus!
