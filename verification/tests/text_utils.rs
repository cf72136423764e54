use fledge_standup::text::{
    chars_of, join_chars, lines_chars, split_chars, split_whitespace_chars, string_of, trim,
    trim_end,
};

fn strings(v: Vec<Vec<char>>) -> Vec<String> {
    v.into_iter().map(|c| c.into_iter().collect()).collect()
}

#[test]
fn trims_unicode_whitespace() {
    assert_eq!(trim("  a b \n\t"), "a b");
    assert_eq!(trim("\u{3000}x\u{a0}"), "x");
    assert_eq!(trim_end("  a b \r\n"), "  a b");
    assert_eq!(trim("   "), "");
}

#[test]
fn splits_like_str_split() {
    let v = chars_of("a,,b,");
    assert_eq!(strings(split_chars(&v, ',')), vec!["a", "", "b", ""]);
    assert_eq!(strings(split_chars(&chars_of(""), ',')), vec![""]);
}

#[test]
fn splits_on_whitespace_runs() {
    let v = chars_of("  3   days\tago ");
    assert_eq!(strings(split_whitespace_chars(&v)), vec!["3", "days", "ago"]);
    assert!(split_whitespace_chars(&chars_of("   ")).is_empty());
}

#[test]
fn lines_like_str_lines() {
    let v = chars_of("one\r\ntwo\n\nthree\r");
    assert_eq!(strings(lines_chars(&v)), vec!["one", "two", "", "three\r"]);
    assert_eq!(strings(lines_chars(&chars_of("a\n"))), vec!["a"]);
    assert!(lines_chars(&chars_of("")).is_empty());
}

#[test]
fn joins_a_prefix_of_pieces() {
    let parts = vec![chars_of("a"), chars_of("b"), chars_of("c")];
    assert_eq!(join_chars(&parts, 2, "\n"), "a\nb");
    assert_eq!(join_chars(&parts, 0, "\n"), "");
    assert_eq!(string_of(&chars_of("é✓")), "é✓");
}
