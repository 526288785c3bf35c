use stringdiff::lines::{line_pair, trim_newline};

#[test]
fn line_ends_are_stripped_from_both_ends() {
    assert_eq!(trim_newline("Hello\n"), "Hello");
    assert_eq!(trim_newline("Hello\r\n"), "Hello");
    assert_eq!(trim_newline("\r\nHello\n\r\n"), "Hello");
    assert_eq!(trim_newline("Hello"), "Hello");
    assert_eq!(trim_newline(""), "");
    assert_eq!(trim_newline("\n"), "");
    assert_eq!(trim_newline("\r\n\r\n"), "");
}

#[test]
fn line_ends_inside_and_other_blanks_stay() {
    assert_eq!(trim_newline("a\nb\n"), "a\nb");
    assert_eq!(trim_newline("  a \t\n"), "  a \t");
    assert_eq!(trim_newline("\n \n"), " ");
    assert_eq!(trim_newline("你好，世界\n"), "你好，世界");
}

#[test]
fn both_lines_are_compared_while_both_inputs_last() {
    assert_eq!(line_pair(Some("old\n"), Some("new\r\n")), Some(("old", "new")));
    assert_eq!(line_pair(Some("\n"), Some("x")), Some(("", "x")));
}

#[test]
fn the_longer_input_is_compared_with_the_empty_text() {
    assert_eq!(line_pair(Some("old\n"), None), Some(("old", "")));
    assert_eq!(line_pair(None, Some("new\n")), Some(("", "new")));
}

#[test]
fn nothing_is_compared_once_both_inputs_have_ended() {
    assert_eq!(line_pair(None, None), None);
}
