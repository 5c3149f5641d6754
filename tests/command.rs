use poe::command::{parse_command, parse_i32, parse_u32, space_char, split_words, Command};

fn chars(s: &str) -> Vec<char> {
    s.chars().collect()
}

fn string(v: &[char]) -> String {
    v.iter().collect()
}

fn parse(line: &str, curr: u32) -> Command {
    parse_command(&split_words(&chars(line)), curr)
}

#[test]
fn split_words_skips_runs_of_space() {
    let ws = split_words(&chars("  f  foo\tbar \u{3000}baz  "));
    let ws: Vec<String> = ws.iter().map(|w| string(w)).collect();
    assert_eq!(ws, vec!["f", "foo", "bar", "baz"]);
    assert!(split_words(&chars("   ")).is_empty());
    assert!(split_words(&chars("")).is_empty());
}

#[test]
fn space_char_matches_std() {
    for c in ['a', ' ', '\t', '\n', '\u{a0}', '\u{2003}', '\u{3000}', 'z', '\u{200b}'] {
        assert_eq!(space_char(c), c.is_whitespace());
    }
}

#[test]
fn parse_u32_accepts_plain_and_plus() {
    assert_eq!(parse_u32(&chars("42")), Some(42));
    assert_eq!(parse_u32(&chars("+7")), Some(7));
    assert_eq!(parse_u32(&chars("4294967295")), Some(u32::MAX));
    assert_eq!(parse_u32(&chars("4294967296")), None);
    assert_eq!(parse_u32(&chars("-1")), None);
    assert_eq!(parse_u32(&chars("")), None);
    assert_eq!(parse_u32(&chars("+")), None);
    assert_eq!(parse_u32(&chars("12a")), None);
}

#[test]
fn parse_i32_accepts_signs() {
    assert_eq!(parse_i32(&chars("-3")), Some(-3));
    assert_eq!(parse_i32(&chars("+3")), Some(3));
    assert_eq!(parse_i32(&chars("-2147483648")), Some(i32::MIN));
    assert_eq!(parse_i32(&chars("2147483647")), Some(i32::MAX));
    assert_eq!(parse_i32(&chars("2147483648")), None);
    assert_eq!(parse_i32(&chars("-")), None);
}

#[test]
fn parse_simple_commands() {
    assert!(matches!(parse("", 0), Command::Nothing));
    assert!(matches!(parse("?", 0), Command::Help));
    assert!(matches!(parse("d", 0), Command::Delete));
    assert!(matches!(parse("e", 0), Command::Edit));
    assert!(matches!(parse("i", 0), Command::InsertDown));
    assert!(matches!(parse("I", 0), Command::InsertUp));
    assert!(matches!(parse("m", 0), Command::Metadata));
    assert!(matches!(parse("q", 0), Command::Quit));
}

#[test]
fn parse_context_command() {
    assert!(matches!(parse("c", 0), Command::Context(2)));
    assert!(matches!(parse("c 5", 0), Command::Context(5)));
    assert!(matches!(parse("c -1", 0), Command::Context(0)));
    assert!(matches!(parse("c x", 0), Command::Context(2)));
}

#[test]
fn parse_print_command() {
    assert!(matches!(parse("p", 4), Command::Print(4, 0)));
    assert!(matches!(parse("p 3", 4), Command::Print(2, 0)));
    assert!(matches!(parse("p 0 1", 4), Command::Print(0, 1)));
    assert!(matches!(parse("p x", 4), Command::Print(4, 0)));
    assert!(matches!(parse("p x", 2), Command::Print(2, 0)));
}

#[test]
fn parse_find_commands_join_words() {
    match parse("f  two   words", 0) {
        Command::FindNext(p) => assert_eq!(string(&p), "two words"),
        _ => panic!("expected find"),
    }
    match parse("F x", 0) {
        Command::FindPrev(p) => assert_eq!(string(&p), "x"),
        _ => panic!("expected find"),
    }
}

#[test]
fn parse_file_commands() {
    match parse("w out.txt", 0) {
        Command::Write(Some(n)) => assert_eq!(string(&n), "out.txt"),
        _ => panic!("expected write"),
    }
    assert!(matches!(parse("W", 0), Command::WriteQuit(None)));
    assert!(matches!(parse("o", 0), Command::Open(None)));
}

#[test]
fn parse_line_number_and_unknown() {
    assert!(matches!(parse("12", 0), Command::Goto(Some(11))));
    assert!(matches!(parse("0", 0), Command::Goto(Some(0))));
    assert!(matches!(parse("zz", 0), Command::Goto(None)));
}
