use otfcc::base::{parse_base, read_axis, read_base_script};

const HANG: u32 = 0x68616e67; // "hang"

// header(8) + axis(4) + tag list(6, one tag) + script list(8, one
// record) + script table(2) + base values(6, one coord) + coord(4)
fn well_formed_base_table() -> Vec<u8> {
    let mut b = Vec::new();
    b.extend_from_slice(&0u16.to_be_bytes()); // majorVersion
    b.extend_from_slice(&1u16.to_be_bytes()); // minorVersion
    b.extend_from_slice(&8u16.to_be_bytes()); // HorizAxisOffset
    b.extend_from_slice(&0u16.to_be_bytes()); // VertAxisOffset (none)
    // Axis table @8
    b.extend_from_slice(&4u16.to_be_bytes()); // BaseTagListOffset (rel to 8)
    b.extend_from_slice(&10u16.to_be_bytes()); // BaseScriptListOffset (rel to 8)
    // BaseTagList @12
    b.extend_from_slice(&1u16.to_be_bytes()); // BaseTagCount
    b.extend_from_slice(&HANG.to_be_bytes());
    // BaseScriptList @18
    b.extend_from_slice(&1u16.to_be_bytes()); // BaseScriptCount
    b.extend_from_slice(&HANG.to_be_bytes()); // BaseScriptTag
    b.extend_from_slice(&8u16.to_be_bytes()); // BaseScriptOffset (rel to 18)
    // BaseScript table @26
    b.extend_from_slice(&2u16.to_be_bytes()); // BaseValuesOffset (rel to 26)
    // BaseValues table @28
    b.extend_from_slice(&0u16.to_be_bytes()); // DefaultIndex
    b.extend_from_slice(&1u16.to_be_bytes()); // BaseCoordCount
    b.extend_from_slice(&6u16.to_be_bytes()); // BaseCoordOffset[0] (rel to 28)
    // BaseCoord @34
    b.extend_from_slice(&1u16.to_be_bytes()); // format (unread, format-agnostic)
    b.extend_from_slice(&500i16.to_be_bytes()); // Coordinate
    b
}

#[test]
fn well_formed_table_reads_the_horizontal_axis() {
    let data = well_formed_base_table();
    let (horizontal, vertical) = parse_base(&data).unwrap();
    assert!(vertical.is_none());
    let axis = horizontal.unwrap();
    assert_eq!(axis.entries.len(), 1);
    assert_eq!(axis.entries[0].tag, HANG);
    assert_eq!(axis.entries[0].default_baseline_tag, HANG);
    assert_eq!(axis.entries[0].base_values.len(), 1);
    assert_eq!(axis.entries[0].base_values[0].tag, HANG);
    assert_eq!(f64::from(axis.entries[0].base_values[0].coordinate), 500.0);
}

#[test]
fn truncated_header_errs_instead_of_reading_oob() {
    assert!(parse_base(&well_formed_base_table()[..6]).is_err());
}

#[test]
fn zero_axis_offset_is_absent_not_an_error() {
    let mut data = well_formed_base_table();
    data[4..6].copy_from_slice(&0u16.to_be_bytes()); // HorizAxisOffset = 0
    let (horizontal, vertical) = parse_base(&data).unwrap();
    assert!(horizontal.is_none());
    assert!(vertical.is_none());
}

#[test]
fn zero_base_tag_count_makes_the_axis_absent() {
    let mut data = well_formed_base_table();
    data[12..14].copy_from_slice(&0u16.to_be_bytes()); // BaseTagCount = 0
    let (horizontal, _) = parse_base(&data).unwrap();
    assert!(horizontal.is_none());
}

#[test]
fn base_coord_count_mismatched_with_tag_count_is_rejected() {
    // BaseCoordCount (absolute offset 30) is 1 in the fixture, but
    // n_base_tags here is 2 -- must be rejected, not read with the
    // wrong count.
    let base_tag_list = vec![HANG, HANG];
    let data = well_formed_base_table();
    let (tag, values) = read_base_script(&data, 26, &base_tag_list, 2);
    assert_eq!(tag, 0);
    assert!(values.is_empty());
}

#[test]
fn base_script_offset_sum_near_u16_boundary_does_not_wrap() {
    // With `offset` = 60000 and a BaseValuesOffset field of 10000, the
    // combined offset is 70000; a well-formed BaseValues structure placed
    // only there (left as zeros at 70000 - 65536 = 4464) must be read from
    // the true offset.
    let base_tag_list = vec![HANG];
    let mut data = vec![0u8; 70010];
    data[60000..60002].copy_from_slice(&10000u16.to_be_bytes());
    data[70000..70002].copy_from_slice(&0u16.to_be_bytes()); // DefaultIndex
    data[70002..70004].copy_from_slice(&1u16.to_be_bytes()); // BaseCoordCount
    data[70004..70006].copy_from_slice(&6u16.to_be_bytes()); // BaseCoordOffset[0]
    data[70006..70008].copy_from_slice(&1u16.to_be_bytes()); // format
    data[70008..70010].copy_from_slice(&500i16.to_be_bytes()); // Coordinate
    let (default_baseline_tag, base_values) = read_base_script(&data, 60000, &base_tag_list, 1);
    assert_eq!(default_baseline_tag, HANG);
    assert_eq!(base_values.len(), 1);
    assert_eq!(f64::from(base_values[0].coordinate), 500.0);
}

#[test]
fn axis_tag_list_offset_sum_near_u16_boundary_does_not_wrap() {
    // Same shape as the BaseScript case above, for the Axis table's own
    // BaseTagListOffset / BaseScriptListOffset fields.
    let mut data = vec![0u8; 70020];
    data[60000..60002].copy_from_slice(&10000u16.to_be_bytes()); // BaseTagListOffset (rel)
    data[60002..60004].copy_from_slice(&10010u16.to_be_bytes()); // BaseScriptListOffset (rel)
    // BaseTagList @70000
    data[70000..70002].copy_from_slice(&1u16.to_be_bytes());
    data[70002..70006].copy_from_slice(&HANG.to_be_bytes());
    // BaseScriptList @70010
    data[70010..70012].copy_from_slice(&1u16.to_be_bytes());
    data[70012..70016].copy_from_slice(&HANG.to_be_bytes());
    data[70016..70018].copy_from_slice(&0u16.to_be_bytes()); // BaseScriptOffset = 0 (absent)
    let axis = read_axis(&data, 60000).unwrap();
    assert_eq!(axis.entries.len(), 1);
    assert_eq!(axis.entries[0].tag, HANG);
    assert_eq!(axis.entries[0].default_baseline_tag, 0);
    assert!(axis.entries[0].base_values.is_empty());
}
