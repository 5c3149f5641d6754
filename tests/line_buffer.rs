use poe::line_buffer::{LineBuffer, CAPACITY};

fn text(b: &LineBuffer) -> String {
    b.to_vec().into_iter().collect()
}

fn chars(s: &str) -> Vec<char> {
    s.chars().collect()
}

#[test]
fn new_buffer_is_empty() {
    let b = LineBuffer::new();
    assert_eq!(b.len(), 0);
    assert_eq!(b.cursor_pos(), 0);
    assert_eq!(text(&b), "");
}

#[test]
fn insert_at_end_and_in_middle() {
    let mut b = LineBuffer::new();
    assert!(b.insert('a'));
    assert!(b.insert('c'));
    assert!(b.move_left());
    assert!(b.insert('b'));
    assert_eq!(text(&b), "abc");
    assert_eq!(b.cursor_pos(), 2);
    assert_eq!(b.char_at(1), 'b');
}

#[test]
fn insert_at_start_shifts_everything() {
    let mut b = LineBuffer::new();
    b.replace_all(&chars("xyz"));
    b.move_home();
    assert!(b.insert('w'));
    assert_eq!(text(&b), "wxyz");
    assert_eq!(b.cursor_pos(), 1);
}

#[test]
fn full_buffer_drops_extra_character() {
    let mut b = LineBuffer::new();
    for i in 0..CAPACITY {
        assert!(b.insert(if i % 2 == 0 { 'a' } else { 'b' }));
    }
    assert_eq!(b.len(), CAPACITY);
    let before = text(&b);
    assert!(!b.insert('z'));
    assert_eq!(b.len(), CAPACITY);
    assert_eq!(b.cursor_pos(), CAPACITY);
    assert_eq!(text(&b), before);
    b.move_home();
    assert!(!b.insert('z'));
    assert_eq!(text(&b), before);
    assert_eq!(b.cursor_pos(), 0);
}

#[test]
fn backspace_at_start_is_no_op() {
    let mut b = LineBuffer::new();
    b.replace_all(&chars("abc"));
    b.move_home();
    assert!(!b.backspace());
    assert_eq!(text(&b), "abc");
    assert_eq!(b.cursor_pos(), 0);
}

#[test]
fn backspace_in_middle_removes_previous() {
    let mut b = LineBuffer::new();
    b.replace_all(&chars("abcd"));
    b.move_left();
    assert!(b.backspace());
    assert_eq!(text(&b), "abd");
    assert_eq!(b.cursor_pos(), 2);
}

#[test]
fn delete_forward_at_end_is_no_op() {
    let mut b = LineBuffer::new();
    b.replace_all(&chars("abc"));
    assert!(!b.delete_forward());
    assert_eq!(text(&b), "abc");
    assert_eq!(b.cursor_pos(), 3);
}

#[test]
fn delete_forward_removes_at_cursor() {
    let mut b = LineBuffer::new();
    b.replace_all(&chars("abc"));
    b.move_home();
    assert!(b.delete_forward());
    assert_eq!(text(&b), "bc");
    assert_eq!(b.cursor_pos(), 0);
}

#[test]
fn moves_clamp_at_boundaries() {
    let mut b = LineBuffer::new();
    b.replace_all(&chars("ab"));
    assert!(!b.move_right());
    assert_eq!(b.cursor_pos(), 2);
    b.move_home();
    assert!(!b.move_left());
    assert_eq!(b.cursor_pos(), 0);
    b.move_end();
    assert_eq!(b.cursor_pos(), 2);
}

#[test]
fn replace_all_truncates_to_capacity() {
    let mut b = LineBuffer::new();
    let long: Vec<char> = std::iter::repeat('q').take(CAPACITY + 10).collect();
    b.replace_all(&long);
    assert_eq!(b.len(), CAPACITY);
    assert_eq!(b.cursor_pos(), CAPACITY);
    b.clear();
    assert_eq!(b.len(), 0);
    assert_eq!(b.cursor_pos(), 0);
}
