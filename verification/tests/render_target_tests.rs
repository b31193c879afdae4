use ruffle::render_target::unpad_rows;

#[test]
fn padding_is_dropped_from_each_row() {
    let mapped = [1, 2, 3, 0, 4, 5, 6, 0];
    assert_eq!(unpad_rows(&mapped, 4, 3), vec![1, 2, 3, 4, 5, 6]);
}

#[test]
fn a_short_last_row_keeps_its_pixels() {
    let mapped = [1, 2, 9, 9, 3, 4];
    assert_eq!(unpad_rows(&mapped, 4, 2), vec![1, 2, 3, 4]);
}

#[test]
fn unpadded_rows_come_back_whole() {
    let mapped = [7, 8, 9, 10];
    assert_eq!(unpad_rows(&mapped, 2, 2), vec![7, 8, 9, 10]);
    assert!(unpad_rows(&[], 256, 4).is_empty());
    assert!(unpad_rows(&mapped, 2, 0).is_empty());
}
