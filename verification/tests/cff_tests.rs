use otfcc::cff::{
    cff_make_charset, cff_make_fdselect, cff_name_index_item, cff_string_index_items, sidof, CffCharsetPlan, CffFdSelectPlan,
    CffFdSelectRange, CffSidEntry,
};

#[test]
fn strings_get_sids_from_391_once_each() {
    let mut h: Vec<CffSidEntry> = Vec::new();
    assert_eq!(sidof(&mut h, b"Adobe"), 391);
    assert_eq!(sidof(&mut h, b"Identity"), 392);
    assert_eq!(sidof(&mut h, b"Adobe"), 391);
    assert_eq!(h.len(), 2);
    assert_eq!(h[1].sid, 1);
    // Strings are looked up by their text before the first NUL.
    assert_eq!(sidof(&mut h, b"Identity\0x"), 392);
    assert_eq!(sidof(&mut h, b""), 393);
    assert_eq!(sidof(&mut h, b"\0"), 393);
    let items = cff_string_index_items(&mut h);
    assert_eq!(items, vec![b"Adobe".to_vec(), b"Identity".to_vec(), b"".to_vec()]);
    assert!(h.is_empty());
}

fn names(v: &[&[u8]]) -> Vec<Vec<u8>> {
    v.iter().map(|n| n.to_vec()).collect()
}

#[test]
fn charset_of_named_glyphs() {
    let mut h: Vec<CffSidEntry> = Vec::new();
    sidof(&mut h, b"Copyright");
    let r = cff_make_charset(false, &names(&[b".notdef", b"a", b"b", b"a"]), &mut h);
    assert_eq!(r, CffCharsetPlan::Format2 { first: 392, nleft: 2 });
    assert_eq!(h.len(), 3);
    assert_eq!(h[2].str_0, b"b".to_vec());
}

#[test]
fn charset_of_cid_fonts_and_single_glyphs() {
    let mut h: Vec<CffSidEntry> = Vec::new();
    let r = cff_make_charset(true, &names(&[b".notdef", b"a", b"b"]), &mut h);
    assert_eq!(r, CffCharsetPlan::Format2 { first: 1, nleft: 1 });
    assert!(h.is_empty());
    assert_eq!(cff_make_charset(false, &names(&[b".notdef"]), &mut h), CffCharsetPlan::IsoAdobe);
    assert!(h.is_empty());
}

#[test]
fn fdselect_ranges() {
    match cff_make_fdselect(true, 2, &vec![0, 0, 1, 1, 2, 0]) {
        CffFdSelectPlan::Format3 { ranges, sentinel } => {
            assert_eq!(
                ranges,
                vec![
                    CffFdSelectRange { first: 0, fd: 0 },
                    CffFdSelectRange { first: 2, fd: 1 },
                    CffFdSelectRange { first: 4, fd: 2 },
                    CffFdSelectRange { first: 5, fd: 0 },
                ]
            );
            assert_eq!(sentinel, 6);
        }
        other => panic!("unexpected {:?}", other),
    }
    // A DICT index past the count is written as DICT 0.
    match cff_make_fdselect(true, 1, &vec![1, 5, 0]) {
        CffFdSelectPlan::Format3 { ranges, .. } => {
            assert_eq!(ranges, vec![CffFdSelectRange { first: 0, fd: 1 }, CffFdSelectRange { first: 1, fd: 0 }]);
        }
        other => panic!("unexpected {:?}", other),
    }
    assert!(matches!(cff_make_fdselect(false, 2, &vec![0, 1]), CffFdSelectPlan::Empty));
    assert!(matches!(cff_make_fdselect(true, 2, &vec![]), CffFdSelectPlan::Unspecified));
}

#[test]
fn name_index_item_defaults() {
    assert_eq!(cff_name_index_item(Some(b"MyFont")), b"MyFont".to_vec());
    assert_eq!(cff_name_index_item(None), b"Caryll-CFF-FONT".to_vec());
}
