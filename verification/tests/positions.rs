use cst_view::TextRange;

#[test]
fn offset_zero_is_line_one_column_zero() {
    let r = TextRange::from((0, 0));
    assert_eq!(r.to_line_col("abc"), (1, 0));
    assert_eq!(r.to_line_col(""), (1, 0));
}

#[test]
fn first_byte_is_line_one_column_one() {
    let r = TextRange::from((0, 1));
    assert_eq!(r.line("abc"), 1);
    assert_eq!(r.col("abc"), 1);
}

#[test]
fn position_after_newline_resets_column() {
    let src = "ab\ncd";
    assert_eq!(TextRange::from((0, 2)).to_line_col(src), (1, 2));
    assert_eq!(TextRange::from((0, 3)).to_line_col(src), (2, 1));
    assert_eq!(TextRange::from((0, 4)).to_line_col(src), (2, 2));
    assert_eq!(TextRange::from((0, 5)).to_line_col(src), (2, 3));
}

#[test]
fn newline_byte_counts_on_the_old_line() {
    let src = "\nx";
    assert_eq!(TextRange::from((0, 1)).to_line_col(src), (2, 1));
    assert_eq!(TextRange::from((0, 2)).to_line_col(src), (2, 2));
}

#[test]
fn several_lines_accumulate() {
    let src = "one\ntwo\nthree\n";
    assert_eq!(TextRange::from((0, src.len() as u32)).to_line_col(src), (4, 1));
    assert_eq!(TextRange::from((0, 8)).to_line_col(src), (3, 1));
    assert_eq!(TextRange::from((0, 9)).to_line_col(src), (3, 2));
}

#[test]
fn offset_past_the_end_counts_as_the_end() {
    let src = "ab\ncd";
    assert_eq!(TextRange::from((0, 100)).to_line_col(src), (2, 3));
}
