use poe::history::HistoryStore;
use poe::key::{key_for_char, KeyEvent};
use poe::terminal::{EditSession, Terminal};

fn chars(s: &str) -> Vec<char> {
    s.chars().collect()
}

fn string(v: &[char]) -> String {
    v.iter().collect()
}

fn loaded(text: &str) -> Terminal {
    let (h, _) = HistoryStore::load(&chars(text));
    Terminal::with_history(h)
}

fn type_text(t: &mut Terminal, s: &mut EditSession, text: &str) {
    for c in text.chars() {
        t.handle_key(s, key_for_char(c));
    }
}

#[test]
fn key_for_char_submits_on_line_breaks() {
    assert_eq!(key_for_char('\n'), KeyEvent::Submit);
    assert_eq!(key_for_char('\r'), KeyEvent::Submit);
    assert_eq!(key_for_char('x'), KeyEvent::Char('x'));
    assert_eq!(key_for_char('\t'), KeyEvent::Char('\t'));
}

#[test]
fn up_walks_back_through_history() {
    let mut t = loaded("a\nb\nc\n");
    let (mut s, out) = t.start_readline(chars("> "));
    assert_eq!(string(&out), "> ");
    let o = t.handle_key(&mut s, KeyEvent::Up);
    assert_eq!(string(&s.text()), "c");
    assert_eq!(string(&o), "\r\x1b[2K> c");
    t.handle_key(&mut s, KeyEvent::Up);
    assert_eq!(string(&s.text()), "b");
    t.handle_key(&mut s, KeyEvent::Up);
    assert_eq!(string(&s.text()), "a");
    let o = t.handle_key(&mut s, KeyEvent::Up);
    assert_eq!(string(&s.text()), "a");
    assert_eq!(string(&o), "");
    assert_eq!(s.cursor_pos(), 1);
}

#[test]
fn down_walks_forward_to_fresh_line() {
    let mut t = loaded("a\nb\nc\n");
    let (mut s, _) = t.start_readline(chars("> "));
    for _ in 0..3 {
        t.handle_key(&mut s, KeyEvent::Up);
    }
    assert_eq!(string(&s.text()), "a");
    t.handle_key(&mut s, KeyEvent::Down);
    assert_eq!(string(&s.text()), "b");
    t.handle_key(&mut s, KeyEvent::Down);
    assert_eq!(string(&s.text()), "c");
    let o = t.handle_key(&mut s, KeyEvent::Down);
    assert_eq!(string(&s.text()), "");
    assert_eq!(s.cursor_pos(), 0);
    assert_eq!(string(&o), "\r\x1b[2K> ");
}

#[test]
fn edit_existing_left_left_backspace() {
    let mut t = Terminal::new();
    let (mut s, out) = EditSession::edit_existing(chars("# "), &chars("hello"));
    assert_eq!(string(&out), "# hello");
    assert_eq!(s.cursor_pos(), 5);
    let o = t.handle_key(&mut s, KeyEvent::Left);
    assert_eq!(string(&o), "\x1b[1D");
    t.handle_key(&mut s, KeyEvent::Left);
    let o = t.handle_key(&mut s, KeyEvent::Backspace);
    assert_eq!(string(&s.text()), "helo");
    assert_eq!(s.cursor_pos(), 2);
    assert_eq!(string(&o), "\x1b[1Dlo \x1b[3D");
    let o = t.handle_key(&mut s, KeyEvent::Submit);
    assert_eq!(string(&o), "\n\r");
    assert!(s.is_submitted());
    assert_eq!(t.history_store().len(), 0);
}

#[test]
fn submitted_line_is_recalled_first() {
    let mut t = Terminal::new();
    let (mut s, _) = t.start_readline(chars("> "));
    type_text(&mut t, &mut s, "test");
    t.handle_key(&mut s, KeyEvent::Submit);
    assert!(s.is_submitted());
    assert_eq!(string(&s.text()), "test");
    let (mut s2, _) = t.start_readline(chars("> "));
    t.handle_key(&mut s2, KeyEvent::Up);
    assert_eq!(string(&s2.text()), "test");
}

#[test]
fn typing_at_end_echoes_character() {
    let mut t = Terminal::new();
    let (mut s, _) = t.start_readline(chars("> "));
    let o = t.handle_key(&mut s, KeyEvent::Char('x'));
    assert_eq!(string(&o), "x");
}

#[test]
fn typing_in_middle_repaints_tail() {
    let mut t = Terminal::new();
    let (mut s, _) = t.start_readline(chars("> "));
    type_text(&mut t, &mut s, "ac");
    t.handle_key(&mut s, KeyEvent::Left);
    let o = t.handle_key(&mut s, KeyEvent::Char('b'));
    assert_eq!(string(&s.text()), "abc");
    assert_eq!(s.cursor_pos(), 2);
    assert_eq!(string(&o), "bc \x1b[2D");
}

#[test]
fn backspace_at_end_erases_last_column() {
    let mut t = Terminal::new();
    let (mut s, _) = t.start_readline(chars("> "));
    type_text(&mut t, &mut s, "ab");
    let o = t.handle_key(&mut s, KeyEvent::Backspace);
    assert_eq!(string(&o), "\x1b[1D \x1b[1D");
    assert_eq!(string(&s.text()), "a");
}

#[test]
fn delete_in_middle_repaints_tail() {
    let mut t = Terminal::new();
    let (mut s, _) = t.start_readline(chars("> "));
    type_text(&mut t, &mut s, "abc");
    let o = t.handle_key(&mut s, KeyEvent::Home);
    assert_eq!(string(&o), "\x1b[3D");
    let o = t.handle_key(&mut s, KeyEvent::Delete);
    assert_eq!(string(&s.text()), "bc");
    assert_eq!(string(&o), "bc \x1b[3D");
    let o = t.handle_key(&mut s, KeyEvent::End);
    assert_eq!(string(&o), "\x1b[2C");
    let o = t.handle_key(&mut s, KeyEvent::Delete);
    assert_eq!(string(&o), "");
    assert_eq!(string(&s.text()), "bc");
}

#[test]
fn ctrl_c_clears_line_and_keeps_editing() {
    let mut t = loaded("old\n");
    let (mut s, _) = t.start_readline(chars("> "));
    t.handle_key(&mut s, KeyEvent::Up);
    type_text(&mut t, &mut s, "er");
    let o = t.handle_key(&mut s, KeyEvent::Ctrl('c'));
    assert_eq!(string(&o), "\n\r\x1b[2K> ");
    assert_eq!(string(&s.text()), "");
    assert!(!s.is_submitted());
    t.handle_key(&mut s, KeyEvent::Up);
    assert_eq!(string(&s.text()), "old");
    let o = t.handle_key(&mut s, KeyEvent::Ctrl('x'));
    assert_eq!(string(&o), "");
    assert_eq!(string(&s.text()), "old");
}

#[test]
fn edit_session_ignores_history_keys() {
    let mut t = loaded("a\n");
    let (mut s, _) = EditSession::edit_existing(chars("1 # "), &chars("xy"));
    let o = t.handle_key(&mut s, KeyEvent::Up);
    assert_eq!(string(&o), "");
    assert_eq!(string(&s.text()), "xy");
    t.handle_key(&mut s, KeyEvent::Down);
    assert_eq!(string(&s.text()), "xy");
    t.handle_key(&mut s, KeyEvent::Unrecognized);
    t.handle_key(&mut s, KeyEvent::Submit);
    assert_eq!(t.history_store().len(), 1);
}

#[test]
fn bounds_hold_over_a_key_sequence() {
    let mut t = loaded("first\nsecond\n");
    let (mut s, _) = t.start_readline(chars("> "));
    let keys = [
        KeyEvent::Char('a'),
        KeyEvent::Left,
        KeyEvent::Left,
        KeyEvent::Char('b'),
        KeyEvent::Up,
        KeyEvent::Home,
        KeyEvent::Delete,
        KeyEvent::End,
        KeyEvent::Backspace,
        KeyEvent::Down,
        KeyEvent::Down,
        KeyEvent::Right,
        KeyEvent::Ctrl('c'),
        KeyEvent::Backspace,
        KeyEvent::Delete,
    ];
    for k in keys.iter() {
        t.handle_key(&mut s, *k);
        let len = s.text().len();
        assert!(s.cursor_pos() <= len);
        assert!(len <= poe::line_buffer::CAPACITY);
    }
    assert_eq!(string(&s.text()), "");
}

#[test]
fn typing_past_capacity_drops_characters() {
    let mut t = Terminal::new();
    let (mut s, _) = t.start_readline(chars("> "));
    for _ in 0..poe::line_buffer::CAPACITY {
        t.handle_key(&mut s, KeyEvent::Char('x'));
    }
    let o = t.handle_key(&mut s, KeyEvent::Char('y'));
    assert_eq!(string(&o), "");
    assert_eq!(s.text().len(), poe::line_buffer::CAPACITY);
    assert!(s.text().iter().all(|c| *c == 'x'));
}

#[test]
fn recall_truncates_long_entries() {
    let long: String = std::iter::repeat('q').take(poe::line_buffer::CAPACITY + 3).collect();
    let mut t = loaded(&format!("{}\n", long));
    let (mut s, _) = t.start_readline(chars("> "));
    t.handle_key(&mut s, KeyEvent::Up);
    assert_eq!(s.text().len(), poe::line_buffer::CAPACITY);
    assert_eq!(s.cursor_pos(), poe::line_buffer::CAPACITY);
}
