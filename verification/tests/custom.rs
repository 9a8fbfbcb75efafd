use commentstrip::scanner::{lookbehind_matches, strip_comments};
use std::collections::VecDeque;

fn window(slots: &[Option<char>]) -> VecDeque<Option<char>> {
    slots.iter().copied().collect()
}

#[test]
fn no_markers_is_the_identity() {
    let scan = strip_comments(&[], &[], &[]);
    assert_eq!(scan.lookbehind_width(), 0);
    assert_eq!(scan.scan(""), "");
    assert_eq!(scan.scan("a//b\nc /* d */ \"e\" # f"), "a//b\nc /* d */ \"e\" # f");
}

#[test]
fn width_is_the_longest_marker() {
    assert_eq!(strip_comments(&["//", "REM"], &[], &[]).lookbehind_width(), 3);
    assert_eq!(strip_comments(&["//"], &[("<!--", "-->")], &["'"]).lookbehind_width(), 4);
    assert_eq!(strip_comments(&[], &[("(", "*****)")], &[]).lookbehind_width(), 6);
    assert_eq!(strip_comments(&["#"], &[], &["\"\"\""]).lookbehind_width(), 3);
}

#[test]
fn width_counts_characters() {
    assert_eq!(strip_comments(&["\u{b6}\u{b6}"], &[], &[]).lookbehind_width(), 2);
}

#[test]
fn start_marker_is_removed_by_its_own_length() {
    let scan = strip_comments(&[], &[("<!--", "-->")], &[]);
    assert_eq!(scan.scan("a<!--b-->c"), "ac");
    assert_eq!(scan.scan("ab<!---->cd"), "abcd");
    let scan = strip_comments(&[], &[("(", "*****)")], &[]);
    assert_eq!(scan.scan("ab(c*****)d"), "abd");
}

#[test]
fn line_comment_wins_over_block_comment_and_quote() {
    let scan = strip_comments(&["#"], &[("#", "!")], &["#"]);
    assert_eq!(scan.scan("a#b!c#d\ne"), "ae");
}

#[test]
fn block_comment_wins_over_quote() {
    let scan = strip_comments(&[], &[("%", "!")], &["%"]);
    assert_eq!(scan.scan("a%b%c!d"), "ad");
}

#[test]
fn first_configured_marker_wins_not_the_longest() {
    assert_eq!(strip_comments(&["b", "ab"], &[], &[]).scan("xab\ny"), "xay");
    assert_eq!(strip_comments(&["ab", "b"], &[], &[]).scan("xab\ny"), "xy");
}

#[test]
fn first_configured_pair_gives_the_end_marker() {
    let scan = strip_comments(&[], &[("/*", "*/"), ("/*", "!")], &[]);
    assert_eq!(scan.scan("a/*b!c*/d"), "ad");
    let scan = strip_comments(&[], &[("/*", "!"), ("/*", "*/")], &[]);
    assert_eq!(scan.scan("a/*b!c*/d"), "ac*/d");
}

#[test]
fn long_quote_marks() {
    let scan = strip_comments(&["#"], &[], &["\"\"\""]);
    assert_eq!(scan.scan("a\"\"\"b#c\"\"\"d#e"), "a\"\"\"b#c\"\"\"d");
    assert_eq!(scan.scan("a\"b#c"), "a\"b");
}

#[test]
fn marker_is_not_found_before_enough_was_read() {
    let scan = strip_comments(&["abc"], &[], &[]);
    assert_eq!(scan.scan("bc"), "bc");
    assert_eq!(scan.scan("c"), "c");
    assert_eq!(scan.scan("abc"), "");
}

#[test]
fn markers_of_other_alphabets() {
    let scan = strip_comments(&["\u{b6}"], &[("\u{ab}", "\u{bb}")], &["\u{201e}"]);
    assert_eq!(scan.scan("a\u{ab}b\u{bb}c\u{b6}d\ne"), "ace");
    assert_eq!(scan.scan("\u{201e}\u{b6}\u{201e}\u{e9}"), "\u{201e}\u{b6}\u{201e}\u{e9}");
}

#[test]
fn matching_is_exact_and_case_sensitive() {
    let scan = strip_comments(&["REM"], &[], &[]);
    assert_eq!(scan.scan("a rem b"), "a rem b");
    assert_eq!(scan.scan("a REM b"), "a ");
}

#[test]
fn marker_after_a_closed_comment_can_reach_back_into_it() {
    let scan = strip_comments(&["ba"], &[("(", "b")], &[]);
    assert_eq!(scan.scan("x(yba z\nw"), "w");
}

#[test]
fn empty_marker_is_found_after_every_character() {
    let scan = strip_comments(&[""], &[], &[]);
    assert_eq!(scan.lookbehind_width(), 0);
    assert_eq!(scan.scan("abc\ndef"), "ad");
}

#[test]
fn window_matches_its_last_characters() {
    let w = window(&[Some('x'), Some('a'), Some('b')]);
    assert!(lookbehind_matches(&w, "ab"));
    assert!(lookbehind_matches(&w, "b"));
    assert!(lookbehind_matches(&w, "xab"));
    assert!(lookbehind_matches(&w, ""));
    assert!(!lookbehind_matches(&w, "a"));
    assert!(!lookbehind_matches(&w, "xa"));
    assert!(!lookbehind_matches(&w, "bb"));
}

#[test]
fn absent_slots_match_no_marker() {
    let w = window(&[None, None, Some('b')]);
    assert!(lookbehind_matches(&w, "b"));
    assert!(!lookbehind_matches(&w, "ab"));
    assert!(!lookbehind_matches(&window(&[None, None]), "a"));
    assert!(lookbehind_matches(&window(&[None, None]), ""));
}

#[test]
fn marker_longer_than_the_window_matches_nothing() {
    let w = window(&[Some('a'), Some('b')]);
    assert!(!lookbehind_matches(&w, "zab"));
    assert!(!lookbehind_matches(&window(&[]), "a"));
    assert!(lookbehind_matches(&window(&[]), ""));
}

#[test]
fn output_is_never_longer_than_the_text() {
    let scan = strip_comments(&["//"], &[("/*", "*/")], &["\""]);
    for text in ["", "/", "//", "a/*b", "\"//\"", "x/**//y\nz", "plain"] {
        assert!(scan.scan(text).chars().count() <= text.chars().count());
    }
}

#[test]
fn text_with_only_quotes_is_unchanged() {
    let scan = strip_comments(&["//"], &[("/*", "*/")], &["\""]);
    assert_eq!(scan.scan("a \"//b /* c\" d \"*/\""), "a \"//b /* c\" d \"*/\"");
}

#[test]
fn comment_between_the_halves_of_a_marker_leaves_the_marker() {
    let scan = strip_comments(&["#"], &[("<!--", "-->")], &[]);
    let once = scan.scan("<#x\n!-- y -->z");
    assert_eq!(once, "<!-- y -->z");
    assert_eq!(scan.scan(&once), "z");
}
