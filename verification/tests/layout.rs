use easy_ftc::layout::{layout_for_display, remove_leading_indentation};

#[test]
fn strips_first_line_indent_from_every_line() {
    // First-line indent is 2: the second line loses min(2, 4) = 2 of its
    // four spaces, the third loses min(2, 1) = 1.
    assert_eq!(remove_leading_indentation("  a\n    b\n c\n"), "a\n  b\nc\n");
}

#[test]
fn no_op_when_first_line_has_no_indent() {
    let text = "a\n    b\n\tc\n";
    assert_eq!(remove_leading_indentation(text), text);
}

#[test]
fn tabs_count_as_indentation() {
    assert_eq!(remove_leading_indentation("\t\tx\n\t\t\ty\n\tz"), "x\n\ty\nz");
}

#[test]
fn empty_input_stays_empty() {
    assert_eq!(remove_leading_indentation(""), "");
}

#[test]
fn final_unterminated_segment_is_kept() {
    assert_eq!(remove_leading_indentation("  a\n  b"), "a\nb");
}

#[test]
fn all_indent_line_without_newline() {
    assert_eq!(remove_leading_indentation("   "), "");
}

#[test]
fn display_form_strips_one_leading_newline() {
    assert_eq!(layout_for_display("\n\tx\n\t\ty\n"), "x\n\ty\n");
    assert_eq!(layout_for_display("x\ny\n"), "x\ny\n");
}
