use commentstrip::{c_like, python_like};

#[test]
fn line_comment_runs_through_the_line_terminator() {
    assert_eq!(c_like().scan("a//b\nc"), "ac");
}

#[test]
fn line_comment_ends_at_carriage_return() {
    assert_eq!(c_like().scan("a//b\rc"), "ac");
    assert_eq!(c_like().scan("a//b\r\nc"), "a\nc");
}

#[test]
fn line_comment_runs_to_end_of_input() {
    assert_eq!(c_like().scan("a//b"), "a");
    assert_eq!(c_like().scan("//"), "");
}

#[test]
fn block_comment_is_removed_with_its_markers() {
    assert_eq!(c_like().scan("x/*y*/z"), "xz");
    assert_eq!(c_like().scan("x/**/z"), "xz");
    assert_eq!(c_like().scan("x/* a\n b */z"), "xz");
}

#[test]
fn block_comments_do_not_nest() {
    assert_eq!(c_like().scan("a/*b/*c*/d*/e"), "ad*/e");
}

#[test]
fn quoted_literal_keeps_comment_markers() {
    assert_eq!(c_like().scan("a\"//b\"c"), "a\"//b\"c");
    assert_eq!(c_like().scan("a\"/*b*/\"c"), "a\"/*b*/\"c");
}

#[test]
fn comment_after_closed_quote_is_removed() {
    assert_eq!(c_like().scan("\"a\"//b"), "\"a\"");
}

#[test]
fn quote_mark_inside_comment_opens_nothing() {
    assert_eq!(c_like().scan("a/*\"*/b//\"\nc"), "abc");
}

#[test]
fn unterminated_block_comment_runs_to_end_of_input() {
    assert_eq!(c_like().scan("a/*bcd"), "a");
}

#[test]
fn unterminated_quote_is_copied_to_end_of_input() {
    assert_eq!(c_like().scan("a\"bcd"), "a\"bcd");
    assert_eq!(c_like().scan("a\"b//cd"), "a\"b//cd");
}

#[test]
fn python_quotes_close_only_on_their_own_mark() {
    assert_eq!(python_like().scan("a'b\"c'd"), "a'b\"c'd");
    assert_eq!(python_like().scan("a\"b'c\"d#e"), "a\"b'c\"d");
    assert_eq!(python_like().scan("'#'#x"), "'#'");
}

#[test]
fn python_line_comment() {
    assert_eq!(python_like().scan("x = 1 # one\ny = 2"), "x = 1 y = 2");
    assert_eq!(python_like().scan("a /* b */ // c"), "a /* b */ // c");
}

#[test]
fn empty_text_gives_empty_output() {
    assert_eq!(c_like().scan(""), "");
    assert_eq!(python_like().scan(""), "");
}

#[test]
fn text_without_markers_is_unchanged() {
    assert_eq!(c_like().scan("int x = a / b * c;\n"), "int x = a / b * c;\n");
    assert_eq!(python_like().scan("x = a / b * c\n"), "x = a / b * c\n");
    assert_eq!(c_like().scan("h\u{e9}llo w\u{f6}rld \u{1f600}"), "h\u{e9}llo w\u{f6}rld \u{1f600}");
}

#[test]
fn preset_window_widths() {
    assert_eq!(c_like().lookbehind_width(), 2);
    assert_eq!(python_like().lookbehind_width(), 1);
}

#[test]
fn scanner_is_reusable_and_starts_afresh() {
    let scan = c_like();
    assert_eq!(scan.scan("a/*b"), "a");
    assert_eq!(scan.scan("c*/d"), "c*/d");
    assert_eq!(scan.scan("/"), "/");
    assert_eq!(scan.scan("/x"), "/x");
}

#[test]
fn scanning_a_stripped_text_again_changes_nothing() {
    let once = c_like().scan("a//b\nc/*d*/e");
    assert_eq!(once, "ace");
    assert_eq!(c_like().scan(&once), once);
}

#[test]
fn second_scan_may_differ_where_markers_remain() {
    let text = "\"\"/**//\n\"//\"";
    let once = c_like().scan(text);
    assert_eq!(once, "\"\"//\"");
    assert_eq!(c_like().scan(&once), "\"\"");
}

#[test]
fn marker_joined_across_a_comment_end_takes_what_output_there_is() {
    assert_eq!(c_like().scan("/**//x\ny"), "y");
    assert_eq!(c_like().scan("ab/**//x\ny"), "ay");
}
