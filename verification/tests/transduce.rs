use puresugar::transducer::run;

fn transduce(input: &str) -> String {
    let chars: Vec<char> = input.chars().collect();
    run(&chars).into_iter().collect()
}

#[test]
fn empty_input() {
    assert_eq!(transduce(""), "");
}

#[test]
fn plain_text_passes_through() {
    assert_eq!(transduce("hello world\n  next"), "hello world\n  next");
}

#[test]
fn carriage_returns_removed() {
    assert_eq!(transduce("a\rb\r\n"), "ab\n");
}

#[test]
fn lone_newline() {
    assert_eq!(transduce("\n"), "\n");
}

#[test]
fn exotic_space_normalized() {
    assert_eq!(transduce("a\n\u{a0}b"), "a\n b");
}

#[test]
fn inline_array_closes_at_line_end() {
    assert_eq!(transduce("@foo\n"), "[ foo ]\n");
}

#[test]
fn inline_object_closes_at_line_end() {
    assert_eq!(transduce("#foo\n"), "{ foo }\n");
}

#[test]
fn trigger_swallows_one_separator() {
    assert_eq!(transduce("@ foo\n"), "[ foo ]\n");
}

#[test]
fn control_whitespace_not_swallowed() {
    assert_eq!(transduce("@\tx\n"), "\t[ x ]\n");
}

#[test]
fn trigger_at_end_of_input_left_open() {
    assert_eq!(transduce("@foo"), "[ foo");
}

#[test]
fn pending_at_end_of_input_emits_nothing() {
    assert_eq!(transduce("@"), "");
}

#[test]
fn multiline_block_opens_and_closes() {
    assert_eq!(transduce("@\n  foo\nrest"), "\n  [ foo ]\nrest");
}

#[test]
fn multiline_object_block() {
    assert_eq!(transduce("#\n  x\ny"), "\n  { x }\ny");
}

#[test]
fn sibling_lines_share_one_block() {
    assert_eq!(transduce("@\n  a\n  b\n"), "\n  [ a\n  , b ]\n");
}

#[test]
fn deeper_line_stays_in_block() {
    assert_eq!(transduce("@\n  a\n    b\n"), "\n  [ a\n    b ]\n");
}

#[test]
fn nested_multiline_blocks() {
    assert_eq!(transduce("@\n  @\n    x\n"), "\n  [ \n    [ x ] ]\n");
}

#[test]
fn bracket_groups_force_close() {
    assert_eq!(transduce("(@a)(#b)"), "([ a ])({ b })");
}

#[test]
fn paren_closes_to_enclosing_bracket() {
    assert_eq!(transduce("(@\n  a)\n"), "(\n  [ a ])\n");
}

#[test]
fn unmatched_paren_dropped() {
    assert_eq!(transduce("a)b"), "ab");
}

#[test]
fn unmatched_paren_still_closes_sugar() {
    assert_eq!(transduce("@\n  a)b\n"), "\n  [ a ]b\n");
}

#[test]
fn inline_switch_emits_close_without_space() {
    assert_eq!(transduce("@a#b\n"), "[ a]{ b }\n");
}
