//! Reading and writing of OpenType font tables (BASE, CPAL, COLR, GDEF
//! ligature carets, LTSH, OS/2, SVG, TSI0-TSI3, TSI5, VORG, and the
//! string table, charset and FDSelect of CFF), with every parser and
//! serializer stated against a byte-level specification.
#![allow(non_snake_case)]
#![allow(non_camel_case_types)]

pub mod binio;
pub mod handle;
pub mod packet;
pub mod tag;
pub mod base;
pub mod buffer;
pub mod tsi;
pub mod cpal;
pub mod colr;
pub mod os_2;
pub mod svg;
pub mod vorg;
pub mod ltsh;
pub mod tsi5;
pub mod gdef;
pub mod order;
pub mod tsi_layout;
pub mod cff;
