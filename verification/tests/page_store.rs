use typst_memtables::page_store::{
    frame_record, length_prefix, payload_length, StoreError, StoreIndex,
};

type Index = StoreIndex<&'static str, &'static str, u32>;

#[test]
fn empty_store_reports_zero_pages() {
    let store: Index = StoreIndex::new();
    assert_eq!(store.page_count(), 0);
}

#[test]
fn read_page_out_of_range_errors() {
    let store: Index = StoreIndex::from_lengths(&[10]);
    let err = store.locate(5).expect_err("should error");
    assert_eq!(err, StoreError::PageOutOfRange);
    assert_eq!(err.message(), "page index out of range");
}

#[test]
fn remaining_tags_inject_into_last_page_only() {
    let mut store: Index = StoreIndex::from_lengths(&[3, 4]);
    assert!(!store.injects_remaining_tags(1));
    store.set_remaining_tags(vec![7]);
    assert!(!store.injects_remaining_tags(0));
    assert!(store.injects_remaining_tags(1));
    assert_eq!(store.remaining_tags(), &[7]);
    assert_eq!(store.take_remaining_tags(), vec![7]);
    assert!(!store.injects_remaining_tags(1));
}

#[test]
fn records_are_length_prefixed_little_endian() {
    assert_eq!(length_prefix(0x0102), vec![2, 1, 0, 0, 0, 0, 0, 0]);
    assert_eq!(frame_record(&[9, 8]), vec![2, 0, 0, 0, 0, 0, 0, 0, 9, 8]);
    assert_eq!(payload_length(&length_prefix(123_456_789)), 123_456_789);
}

#[test]
fn offsets_follow_the_records() {
    let store: Index = StoreIndex::from_lengths(&[5, 0, 7]);
    assert_eq!(store.page_count(), 3);
    assert_eq!(store.locate(0), Ok(0));
    assert_eq!(store.locate(1), Ok(13));
    assert_eq!(store.locate(2), Ok(21));
    assert_eq!(store.locate(3), Err(StoreError::PageOutOfRange));
}

#[test]
fn appended_pages_land_where_the_file_has_them() {
    let payloads: [&[u8]; 3] = [&[1, 2, 3], &[], &[4; 20]];
    let mut store: Index = StoreIndex::new();
    let mut file: Vec<u8> = Vec::new();
    for p in payloads {
        let at = store.reserve_offset();
        assert_eq!(at as usize, file.len());
        file.extend(frame_record(p));
        store.commit_page(p.len() as u64);
    }
    for (i, p) in payloads.iter().enumerate() {
        let at = store.locate(i).expect("in range") as usize;
        let len = payload_length(&file[at..at + 8]) as usize;
        assert_eq!(&file[at + 8..at + 8 + len], *p);
    }
}

#[test]
fn page_refs_count_up_per_table() {
    let mut store: Index = StoreIndex::new();
    assert_eq!(store.keep_page_refs(Some("1"), "Page"), (Some(0), 0));
    assert_eq!(store.keep_page_refs(None, "Seite"), (None, 1));
    assert_eq!(store.keep_page_refs(Some("i"), "Page"), (Some(1), 2));
    assert_eq!(*store.numbering(1), "i");
    assert_eq!(*store.supplement(1), "Seite");
    store.clear_tag_content();
    assert!(store.remaining_tags().is_empty());
}
