use diminuendo::filter::clean;

#[test]
fn marker_stripped_trailing_byte_kept() {
    // Two-byte timing-clock marker removed; the final byte is never scanned
    // by the two-byte rule and stays as is.
    assert_eq!(clean(&vec![0x0F, 0xF8, 0x3C]), Some(vec![0x3C]));
}

#[test]
fn all_zero_frame_discarded() {
    assert_eq!(clean(&vec![0x00, 0x00, 0x00]), None);
}

#[test]
fn both_marker_pairs_stripped() {
    assert_eq!(clean(&vec![0x0F, 0xFE, 0x0F, 0xFE, 0x11]), Some(vec![0x11]));
}

#[test]
fn empty_frame_discarded() {
    let empty: Vec<u8> = Vec::new();
    assert_eq!(clean(&empty), None);
}

#[test]
fn lone_marker_scrubs_to_nothing() {
    assert_eq!(clean(&vec![0x0F, 0xF8]), None);
    assert_eq!(clean(&vec![0x0F, 0xFE]), None);
}

#[test]
fn single_byte_never_scanned() {
    assert_eq!(clean(&vec![0xF8]), Some(vec![0xF8]));
}

#[test]
fn zero_rule_reads_index_zero_and_advances() {
    // The zero rule tests index 0 of the live sequence (not the cursor),
    // removes at the cursor, and the cursor still advances. So after the
    // leading zero goes, the marker that slid under the cursor is past the
    // point the scan re-examines and survives.
    assert_eq!(clean(&vec![0x00, 0x0F, 0xF8, 0x3C]), Some(vec![0x0F, 0xF8, 0x3C]));
}

#[test]
fn leading_zero_stripped() {
    assert_eq!(clean(&vec![0x00, 0x05]), Some(vec![0x05]));
}

#[test]
fn interior_zeros_kept() {
    // Only a zero at index 0 triggers the zero rule; zeros further in stay,
    // and the frame survives because a nonzero byte remains.
    assert_eq!(clean(&vec![0x05, 0x00, 0x00]), Some(vec![0x05, 0x00, 0x00]));
}

#[test]
fn marker_recognised_only_as_adjacent_pair() {
    assert_eq!(clean(&vec![0x0F, 0x0F, 0xF8]), Some(vec![0x0F]));
}
