use modal_term::buffer::{digit_len, split_lines, Buffer, Coord};
use modal_term::text::decimal_string;

#[test]
fn lines_split_like_text_lines() {
    assert_eq!(split_lines("a\r\nb\n\nc"), vec!["a", "b", "", "c"]);
    assert_eq!(split_lines("x\n"), vec!["x"]);
    assert_eq!(split_lines("\n"), vec![""]);
    assert_eq!(split_lines("a\rb\r"), vec!["a\rb\r"]);
    assert!(split_lines("").is_empty());
}

#[test]
fn digit_lengths() {
    assert_eq!(digit_len(0), 1);
    assert_eq!(digit_len(9), 1);
    assert_eq!(digit_len(10), 2);
    assert_eq!(digit_len(12345), 5);
}

#[test]
fn decimals() {
    assert_eq!(decimal_string(0), "0");
    assert_eq!(decimal_string(1234), "1234");
    assert_eq!(decimal_string(u32::MAX), "4294967295");
}

#[test]
fn buffer_from_text() {
    let text = "one\ntwo\nthree\nfour\nfive\nsix\nseven\neight\nnine\nten\neleven\ntwelve\n";
    let b = Buffer::new(text, (Coord { x: 0, y: 1 }, Coord { x: 80, y: 4 }));
    assert_eq!(b.lines().len(), 12);
    assert_eq!(b.lines()[11], "twelve");
    assert_eq!(b.max_index_length(), 2);
    assert_eq!(b.clear_line(), "   ");
}

#[test]
fn buffer_resize_moves_corner() {
    let mut b = Buffer::new("a", (Coord { x: 0, y: 1 }, Coord { x: 10, y: 1 }));
    assert_eq!(b.clear_line(), "");
    assert_eq!(b.max_index_length(), 1);
    b.resize(80, 24);
    assert_eq!(b.corners(), (Coord { x: 0, y: 1 }, Coord { x: 80, y: 22 }));
}
