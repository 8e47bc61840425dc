//! Tests of the line buffer: UTF-8 round trips, boundary-safe edits,
//! splitting and joining.

use ishtar::line::TerminalLine;

#[test]
fn round_trip_ascii() {
    let l = TerminalLine::from_str("hello world");
    assert_eq!(l.to_string(), "hello world");
}

#[test]
fn round_trip_multibyte() {
    let s = "á€𝄞b¢";
    let l = TerminalLine::from_str(s);
    assert_eq!(l.to_string(), s);
    assert_eq!(l.len(), s.len());
}

#[test]
fn round_trip_empty() {
    let l = TerminalLine::from_str("");
    assert_eq!(l.to_string(), "");
    assert!(l.is_empty());
}

#[test]
fn insert_at_boundaries() {
    let mut l = TerminalLine::from_str("ab");
    l.insert(0, 'x');
    assert_eq!(l.to_string(), "xab");
    let n = l.len();
    l.insert(n, 'y');
    assert_eq!(l.to_string(), "xaby");
}

#[test]
fn insert_multibyte_character() {
    let mut l = TerminalLine::from_str("ab");
    l.insert(1, 'é');
    assert_eq!(l.to_string(), "aéb");
    assert_eq!(l.len(), 4);
}

#[test]
fn remove_forward_returns_char_and_width() {
    let mut l = TerminalLine::from_str("aéb");
    let r = l.remove(1, false);
    assert_eq!(r, Some(('é', 2)));
    assert_eq!(l.to_string(), "ab");
}

#[test]
fn remove_backward_takes_char_ending_at_offset() {
    let mut l = TerminalLine::from_str("aéb");
    let r = l.remove(2, true);
    assert_eq!(r, Some(('é', 2)));
    assert_eq!(l.to_string(), "ab");
}

#[test]
fn remove_past_end_is_a_no_op() {
    let mut l = TerminalLine::from_str("ab");
    assert_eq!(l.remove(5, false), None);
    assert_eq!(l.to_string(), "ab");
    let mut empty = TerminalLine::new();
    assert_eq!(empty.remove(0, true), None);
}

#[test]
fn split_off_and_append_are_inverses() {
    let mut l = TerminalLine::from_str("hello");
    let rest = l.split_off(2);
    assert_eq!(l.to_string(), "he");
    assert_eq!(rest.to_string(), "llo");
    l.append_line(rest);
    assert_eq!(l.to_string(), "hello");
}

#[test]
fn push_str_back_appends() {
    let mut l = TerminalLine::from_str("ab");
    l.push_str_back("cdé");
    assert_eq!(l.to_string(), "abcdé");
}

#[test]
fn char_navigation_widths() {
    let l = TerminalLine::from_str("a€b");
    assert_eq!(l.next_char_width(0), Some(1));
    assert_eq!(l.next_char_width(1), Some(3));
    assert_eq!(l.next_char_width(4), Some(1));
    assert_eq!(l.next_char_width(5), None);
    assert_eq!(l.prev_char_width(5), Some(1));
    assert_eq!(l.prev_char_width(4), Some(3));
    assert_eq!(l.prev_char_width(1), Some(1));
    assert_eq!(l.prev_char_width(0), None);
}

#[test]
fn floor_boundary_clamps_into_characters() {
    let l = TerminalLine::from_str("a€b");
    assert_eq!(l.floor_boundary(0), 0);
    assert_eq!(l.floor_boundary(1), 1);
    assert_eq!(l.floor_boundary(2), 1);
    assert_eq!(l.floor_boundary(3), 1);
    assert_eq!(l.floor_boundary(4), 4);
    assert_eq!(l.floor_boundary(99), 5);
}

#[test]
fn chars_to_counts_characters() {
    let l = TerminalLine::from_str("a€b");
    assert_eq!(l.chars_to(0), 0);
    assert_eq!(l.chars_to(1), 1);
    assert_eq!(l.chars_to(4), 2);
    assert_eq!(l.chars_to(5), 3);
}

#[test]
fn clear_empties_the_line() {
    let mut l = TerminalLine::from_str("abc");
    l.clear();
    assert!(l.is_empty());
    assert_eq!(l.to_string(), "");
}
