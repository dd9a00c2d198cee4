use puresugar::chars::{is_control_char, is_indent_char, is_whitespace_char};
use puresugar::scope::{Scope, StateStack, Sugar};
use puresugar::transducer::{process_multiline_newline, skip_indent, write_indent};

#[test]
fn whitespace_classes() {
    assert!(is_whitespace_char(' '));
    assert!(is_whitespace_char('\t'));
    assert!(is_whitespace_char('\n'));
    assert!(is_whitespace_char('\u{2003}'));
    assert!(!is_whitespace_char('x'));
}

#[test]
fn control_classes() {
    assert!(is_control_char('\t'));
    assert!(is_control_char('\r'));
    assert!(is_control_char('\u{85}'));
    assert!(!is_control_char(' '));
    assert!(!is_control_char('x'));
}

#[test]
fn indent_classes() {
    assert!(is_indent_char(' '));
    assert!(is_indent_char('\u{a0}'));
    assert!(is_indent_char('\u{2003}'));
    assert!(!is_indent_char('\t'));
    assert!(!is_indent_char('\n'));
    assert!(!is_indent_char('x'));
}

#[test]
fn skip_indent_counts_spaces() {
    let v: Vec<char> = "  \tx".chars().collect();
    assert_eq!(skip_indent(&v, 0), 2);
    assert_eq!(skip_indent(&v, 2), 0);
    assert_eq!(skip_indent(&v, 4), 0);
}

#[test]
fn skip_indent_counts_exotic_space() {
    let v: Vec<char> = "\u{a0}x".chars().collect();
    assert_eq!(skip_indent(&v, 0), 1);
}

#[test]
fn write_indent_appends_spaces() {
    let mut out: Vec<char> = vec!['a'];
    write_indent(&mut out, 3);
    assert_eq!(out, vec!['a', ' ', ' ', ' ']);
}

#[test]
fn sugar_trigger_and_brackets() {
    assert_eq!(Sugar::from_char('@'), Sugar::Array);
    assert_eq!(Sugar::from_char('#'), Sugar::Object);
    assert_eq!(Sugar::Array.start_char(), '[');
    assert_eq!(Sugar::Array.end_char(), ']');
    assert_eq!(Sugar::Object.start_char(), '{');
    assert_eq!(Sugar::Object.end_char(), '}');
}

#[test]
fn state_stack_push_pop_top() {
    let mut stack = StateStack::new();
    stack.push(Scope::Plain);
    stack.push(Scope::Bracket);
    assert_eq!(stack.top(), Scope::Bracket);
    stack.pop();
    assert_eq!(stack.top(), Scope::Plain);
}

#[test]
fn multiline_close_pops_dedented_block() {
    let mut stack = StateStack::new();
    stack.push(Scope::Plain);
    stack.push(Scope::Multiline(Sugar::Array, 2));
    let mut out: Vec<char> = Vec::new();
    process_multiline_newline(&mut stack, &mut out, 0);
    let text: String = out.into_iter().collect();
    assert_eq!(text, " ]\n");
    assert_eq!(stack.top(), Scope::Plain);
}

#[test]
fn multiline_close_sibling_separator() {
    let mut stack = StateStack::new();
    stack.push(Scope::Plain);
    stack.push(Scope::Multiline(Sugar::Object, 2));
    let mut out: Vec<char> = Vec::new();
    process_multiline_newline(&mut stack, &mut out, 2);
    let text: String = out.into_iter().collect();
    assert_eq!(text, "\n  , ");
    assert_eq!(stack.top(), Scope::Multiline(Sugar::Object, 2));
}
