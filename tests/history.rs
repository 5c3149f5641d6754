use poe::history::{
    join_entries, parse_lines, persisted_line, HistoryStore, NextEntry, MAX_HISTORY_ITEMS,
};

fn chars(s: &str) -> Vec<char> {
    s.chars().collect()
}

fn string(v: &[char]) -> String {
    v.iter().collect()
}

#[test]
fn parse_lines_splits_on_line_feeds() {
    let r = parse_lines(&chars("a\nbc\n\nd"));
    let r: Vec<String> = r.iter().map(|l| string(l)).collect();
    assert_eq!(r, vec!["a", "bc", "", "d"]);
    assert!(parse_lines(&chars("")).is_empty());
    assert_eq!(parse_lines(&chars("x\n")).len(), 1);
}

#[test]
fn persisted_line_adds_line_feed() {
    assert_eq!(string(&persisted_line(&chars("abc"))), "abc\n");
}

#[test]
fn load_keeps_most_recent_entries() {
    let n = MAX_HISTORY_ITEMS + 5;
    let mut text: Vec<char> = Vec::new();
    for i in 1..=n {
        text.extend(persisted_line(&chars(&i.to_string())));
    }
    let (store, rewrite) = HistoryStore::load(&text);
    assert!(rewrite);
    assert_eq!(store.len(), MAX_HISTORY_ITEMS);
    let saved = store.to_text();
    let lines = parse_lines(&saved);
    assert_eq!(lines.len(), MAX_HISTORY_ITEMS);
    for (k, line) in lines.iter().enumerate() {
        assert_eq!(string(line), (k + 6).to_string());
    }
}

#[test]
fn load_without_trim_needs_no_rewrite() {
    let (store, rewrite) = HistoryStore::load(&chars("a\nb\n"));
    assert!(!rewrite);
    assert_eq!(store.len(), 2);
    assert_eq!(string(&store.to_text()), "a\nb\n");
}

#[test]
fn join_entries_terminates_each_line() {
    let es = vec![chars("a"), chars(""), chars("bc")];
    assert_eq!(string(&join_entries(&es)), "a\n\nbc\n");
}

#[test]
fn navigation_walks_back_and_forth() {
    let (mut h, _) = HistoryStore::load(&chars("a\nb\nc\n"));
    assert_eq!(string(&h.navigate_prev().unwrap()), "c");
    assert_eq!(string(&h.navigate_prev().unwrap()), "b");
    assert_eq!(string(&h.navigate_prev().unwrap()), "a");
    assert!(h.navigate_prev().is_none());
    match h.navigate_next() {
        NextEntry::Entry(e) => assert_eq!(string(&e), "b"),
        NextEntry::Fresh => panic!("expected an entry"),
    }
    match h.navigate_next() {
        NextEntry::Entry(e) => assert_eq!(string(&e), "c"),
        NextEntry::Fresh => panic!("expected an entry"),
    }
    assert!(matches!(h.navigate_next(), NextEntry::Fresh));
    assert!(matches!(h.navigate_next(), NextEntry::Fresh));
}

#[test]
fn append_resets_navigation() {
    let mut h = HistoryStore::new();
    h.append(chars("x"));
    assert_eq!(string(&h.navigate_prev().unwrap()), "x");
    h.append(chars("y"));
    assert_eq!(string(&h.navigate_prev().unwrap()), "y");
    h.reset_navigation();
    assert_eq!(string(&h.navigate_prev().unwrap()), "y");
}
