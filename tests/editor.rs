use poe::editor::{contains_chars, document_lines, Editor};
use poe::terminal::Terminal;
use poe::key::KeyEvent;

fn chars(s: &str) -> Vec<char> {
    s.chars().collect()
}

fn string(v: &[char]) -> String {
    v.iter().collect()
}

fn doc(lines: &[&str]) -> Editor {
    Editor::with_contents(None, false, lines.iter().map(|l| chars(l)).collect(), Terminal::new())
}

fn lines(e: &Editor) -> Vec<String> {
    (0..e.line_count()).map(|i| string(e.line(i))).collect()
}

#[test]
fn new_empty_has_no_lines() {
    let e = Editor::new_empty();
    assert_eq!(e.line_count(), 0);
    assert_eq!(e.current_line(), 0);
    assert!(e.file_name_ref().is_none());
    assert!(!e.is_crlf());
}

#[test]
fn contains_chars_finds_substrings() {
    assert!(contains_chars(&chars("hello"), &chars("ll")));
    assert!(contains_chars(&chars("hello"), &chars("")));
    assert!(contains_chars(&chars("hello"), &chars("hello")));
    assert!(!contains_chars(&chars("hello"), &chars("lo!")));
    assert!(!contains_chars(&chars("he"), &chars("hello")));
}

#[test]
fn set_current_line_clamps() {
    let mut e = doc(&["a", "b", "c"]);
    e.set_current_line(1);
    assert_eq!(e.current_line(), 1);
    e.set_current_line(10);
    assert_eq!(e.current_line(), 2);
    let mut empty = Editor::new_empty();
    empty.set_current_line(4);
    assert_eq!(empty.current_line(), 0);
}

#[test]
fn delete_line_moves_up() {
    let mut e = doc(&["a", "b", "c"]);
    e.set_current_line(1);
    assert!(e.delete_line());
    assert_eq!(lines(&e), vec!["a", "c"]);
    assert_eq!(e.current_line(), 0);
    assert!(e.delete_line());
    assert_eq!(lines(&e), vec!["c"]);
    assert_eq!(e.current_line(), 0);
    assert!(e.delete_line());
    assert!(!e.delete_line());
}

#[test]
fn insert_down_and_up() {
    let mut e = doc(&["a", "c"]);
    e.insert_down(chars("b"));
    assert_eq!(lines(&e), vec!["a", "b", "c"]);
    assert_eq!(e.current_line(), 1);
    e.insert_up(chars("x"));
    assert_eq!(lines(&e), vec!["a", "x", "b", "c"]);
    assert_eq!(e.current_line(), 1);
    let mut empty = Editor::new_empty();
    empty.insert_down(chars("only"));
    assert_eq!(lines(&empty), vec!["only"]);
    assert_eq!(empty.current_line(), 0);
}

#[test]
fn replace_current_line() {
    let mut e = doc(&["a", "b"]);
    e.set_current_line(1);
    assert!(e.replace_current(chars("B")));
    assert_eq!(lines(&e), vec!["a", "B"]);
    let mut empty = Editor::new_empty();
    assert!(!empty.replace_current(chars("z")));
}

#[test]
fn find_next_and_prev() {
    let mut e = doc(&["apple", "banana", "cherry", "band"]);
    assert_eq!(e.find_next(&chars("an")), Some(1));
    assert_eq!(e.current_line(), 1);
    assert_eq!(e.find_next(&chars("an")), Some(3));
    assert_eq!(e.find_next(&chars("an")), None);
    assert_eq!(e.current_line(), 3);
    assert_eq!(e.find_prev(&chars("pp")), Some(0));
    assert_eq!(e.find_prev(&chars("pp")), None);
    assert_eq!(e.current_line(), 0);
}

#[test]
fn context_lines_clamp_to_document() {
    let e = doc(&["0", "1", "2", "3", "4", "5"]);
    assert_eq!(e.context_lines(1, 2), vec![0, 1, 2, 3]);
    assert_eq!(e.context_lines(4, 2), vec![2, 3, 4, 5]);
    assert_eq!(e.context_lines(3, 0), vec![3]);
    assert!(e.context_lines(6, 2).is_empty());
}

#[test]
fn editing_current_line_through_editor() {
    let mut e = doc(&["hello"]);
    let (mut s, out) = e.start_edit_current(chars("1 # "));
    assert_eq!(string(&out), "1 # hello");
    e.handle_key(&mut s, KeyEvent::Char('!'));
    e.handle_key(&mut s, KeyEvent::Submit);
    assert!(e.replace_current(s.text()));
    assert_eq!(lines(&e), vec!["hello!"]);
    let (mut r, _) = e.start_readline(chars("+ "));
    e.handle_key(&mut r, KeyEvent::Char('n'));
    e.handle_key(&mut r, KeyEvent::Submit);
    e.insert_down(r.text());
    assert_eq!(lines(&e), vec!["hello!", "n"]);
}

#[test]
fn document_lines_keep_empty_parts() {
    let parts: Vec<String> = document_lines(&chars("a\n\nb\n"), false).iter().map(|p| string(p)).collect();
    assert_eq!(parts, vec!["a", "", "b", ""]);
    let parts = document_lines(&chars(""), true);
    assert_eq!(parts.len(), 1);
    assert!(parts[0].is_empty());
}

#[test]
fn document_text_joins_lines() {
    let e = Editor::from_text("f.txt".to_string(), &chars("one\r\ntwo\r\n"), Terminal::new());
    assert_eq!(string(&e.document_text()), "one\r\ntwo\r\n");
    let e = doc(&["a", "b"]);
    assert_eq!(string(&e.document_text()), "a\nb");
    assert_eq!(string(&Editor::new_empty().document_text()), "");
}

#[test]
fn document_lines_by_separator() {
    let lf: Vec<String> = document_lines(&chars("x\r\ny\nz"), false).iter().map(|l| string(l)).collect();
    assert_eq!(lf, vec!["x\r", "y", "z"]);
    let crlf: Vec<String> = document_lines(&chars("x\r\ny\nz\r\n"), true).iter().map(|l| string(l)).collect();
    assert_eq!(crlf, vec!["x", "y\nz", ""]);
}

#[test]
fn from_text_detects_carriage_returns() {
    let e = Editor::from_text("f.txt".to_string(), &chars("one\r\ntwo"), Terminal::new());
    assert!(e.is_crlf());
    assert_eq!(lines(&e), vec!["one", "two"]);
    assert_eq!(e.file_name_ref().as_deref(), Some("f.txt"));
    let e = Editor::from_text("g.txt".to_string(), &chars("one\ntwo\n"), Terminal::new());
    assert!(!e.is_crlf());
    assert_eq!(lines(&e), vec!["one", "two", ""]);
}

#[test]
fn open_text_detects_line_feeds() {
    let mut e = doc(&["old"]);
    e.set_current_line(0);
    e.open_text("h.txt".to_string(), &chars("a\r\nb"));
    assert!(!e.is_crlf());
    assert_eq!(lines(&e), vec!["a\r", "b"]);
    e.open_text("i.txt".to_string(), &chars("a\rb"));
    assert!(e.is_crlf());
    assert_eq!(lines(&e), vec!["a\rb"]);
    assert_eq!(e.current_line(), 0);
}
