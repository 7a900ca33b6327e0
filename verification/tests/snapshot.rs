use wisp::snapshot::{row_bytes, unpad_rows, ROW_ALIGN};

#[test]
fn a_row_is_padded_to_the_copy_alignment() {
    assert_eq!(row_bytes(100), (400, 512));
    assert_eq!(row_bytes(64), (256, 256));
    assert_eq!(row_bytes(1), (4, ROW_ALIGN));
    assert_eq!(row_bytes(0), (0, 0));
}

#[test]
fn the_padding_after_each_row_is_taken_out() {
    let buffer = [1u8, 2, 3, 0, 4, 5, 6, 0];
    assert_eq!(unpad_rows(&buffer, 3, 4, 2), vec![1, 2, 3, 4, 5, 6]);
}

#[test]
fn rows_that_fill_their_padding_come_out_whole() {
    let buffer: Vec<u8> = (0..12).collect();
    assert_eq!(unpad_rows(&buffer, 4, 4, 3), buffer);
    assert_eq!(unpad_rows(&buffer, 4, 4, 0), Vec::<u8>::new());
}
