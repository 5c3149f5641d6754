use vstd::prelude::*;

use crate::text::{copy_chars, push_all};

verus! {

/// Characters with the Unicode `White_Space` property.
pub open spec fn is_space(c: char) -> bool {
    ('\t' <= c && c <= '\r') || c == ' ' || c == '\u{85}' || c == '\u{a0}' || c == '\u{1680}'
        || ('\u{2000}' <= c && c <= '\u{200a}') || c == '\u{2028}' || c == '\u{2029}' || c
        == '\u{202f}' || c == '\u{205f}' || c == '\u{3000}'
}

/// Whether `c` is white space.
pub fn space_char(c: char) -> (r: bool)
    ensures
        r == is_space(c),
{
    ('\t' <= c && c <= '\r') || c == ' ' || c == '\u{85}' || c == '\u{a0}' || c == '\u{1680}'
        || ('\u{2000}' <= c && c <= '\u{200a}') || c == '\u{2028}' || c == '\u{2029}' || c
        == '\u{202f}' || c == '\u{205f}' || c == '\u{3000}'
}

/// Length of the run of non-space characters that starts `s`.
pub open spec fn word_len(s: Seq<char>) -> nat
    decreases s.len(),
{
    if s.len() == 0 || is_space(s[0]) {
        0
    } else {
        1 + word_len(s.drop_first())
    }
}

/// The maximal runs of non-space characters of `s`, in order.
pub open spec fn words(s: Seq<char>) -> Seq<Seq<char>>
    decreases s.len(),
{
    if s.len() == 0 {
        Seq::empty()
    } else if is_space(s[0]) {
        words(s.drop_first())
    } else {
        let n = word_len(s);
        if 0 < n <= s.len() {
            seq![s.subrange(0, n as int)] + words(s.subrange(n as int, s.len() as int))
        } else {
            Seq::empty()
        }
    }
}

proof fn lemma_word_len_bound(s: Seq<char>)
    ensures
        word_len(s) <= s.len(),
        s.len() > 0 && !is_space(s[0]) ==> word_len(s) > 0,
    decreases s.len(),
{
    if s.len() > 0 && !is_space(s[0]) {
        lemma_word_len_bound(s.drop_first());
    }
}

/// A word ends at a space or at the end.
proof fn lemma_word_len_end(s: Seq<char>, i: int)
    requires
        0 <= i <= s.len(),
        i == s.len() || is_space(s[i]),
        forall|k: int| 0 <= k < i ==> !is_space(#[trigger] s[k]),
    ensures
        word_len(s) == i,
    decreases i,
{
    if i > 0 {
        lemma_word_len_end(s.drop_first(), i - 1);
    }
}

/// Splits `line` into its words.
pub fn split_words(line: &Vec<char>) -> (r: Vec<Vec<char>>)
    ensures
        r@.len() == words(line@).len(),
        forall|i: int| 0 <= i < r@.len() ==> #[trigger] r@[i]@ == words(line@)[i],
{
    let ghost s = line@;
    let n = line.len();
    let mut r: Vec<Vec<char>> = Vec::new();
    let ghost mut done: Seq<Seq<char>> = Seq::empty();
    let mut i: usize = 0;
    assert(s.subrange(0, n as int) =~= s);
    while i < n
        invariant
            n == s.len(),
            s == line@,
            i <= n,
            r@.len() == done.len(),
            forall|k: int| 0 <= k < r@.len() ==> #[trigger] r@[k]@ == done[k],
            done + words(s.subrange(i as int, n as int)) == words(s),
        decreases n - i,
    {
        let rest = Ghost(s.subrange(i as int, n as int));
        if space_char(line[i]) {
            assert(rest@.drop_first() =~= s.subrange(i + 1, n as int));
            i = i + 1;
        } else {
            let mut word: Vec<char> = Vec::new();
            let mut j: usize = i;
            while j < n && !space_char(line[j])
                invariant
                    n == s.len(),
                    s == line@,
                    i <= j <= n,
                    i < n,
                    rest@ == s.subrange(i as int, n as int),
                    word@ == s.subrange(i as int, j as int),
                    forall|k: int| i <= k < j ==> !is_space(#[trigger] s[k]),
                decreases n - j,
            {
                word.push(line[j]);
                j = j + 1;
                assert(word@ =~= s.subrange(i as int, j as int));
            }
            proof {
                assert forall|k: int| 0 <= k < j - i implies !is_space(#[trigger] rest@[k]) by {
                    assert(rest@[k] == s[i + k]);
                }
                if j < n {
                    assert(rest@[j - i] == s[j as int]);
                }
                lemma_word_len_end(rest@, j - i);
                lemma_word_len_bound(rest@);
                assert(rest@.subrange(0, j - i) =~= word@);
                assert(rest@.subrange(j - i, rest@.len() as int) =~= s.subrange(j as int, n as int));
                assert(words(rest@) == seq![word@] + words(s.subrange(j as int, n as int)));
                assert(done + words(rest@) =~= done.push(word@) + words(
                    s.subrange(j as int, n as int),
                ));
                done = done.push(word@);
            }
            r.push(word);
            i = j;
        }
    }
    proof {
        assert(words(s.subrange(n as int, n as int)) =~= Seq::<Seq<char>>::empty()) by {
            assert(s.subrange(n as int, n as int).len() == 0);
        }
        assert(done =~= words(s));
    }
    r
}

/// An ASCII decimal digit.
pub open spec fn is_digit(c: char) -> bool {
    '0' <= c && c <= '9'
}

/// The value of the digit `c`.
pub open spec fn digit_value(c: char) -> int {
    (c as u32) - ('0' as u32)
}

/// The value of the decimal numeral `s`.
pub open spec fn numeral_value(s: Seq<char>) -> int
    decreases s.len(),
{
    if s.len() == 0 {
        0
    } else {
        numeral_value(s.drop_last()) * 10 + digit_value(s.last())
    }
}

/// `s` is a non-empty run of decimal digits.
pub open spec fn is_numeral(s: Seq<char>) -> bool {
    s.len() > 0 && forall|i: int| 0 <= i < s.len() ==> is_digit(#[trigger] s[i])
}

/// The number that `s` spells, as an unsigned 32-bit integer: an optional
/// `+` and decimal digits, within range.
pub open spec fn u32_of(s: Seq<char>) -> Option<u32> {
    let digits = if s.len() > 0 && s[0] == '+' {
        s.drop_first()
    } else {
        s
    };
    if is_numeral(digits) && numeral_value(digits) <= u32::MAX {
        Some(numeral_value(digits) as u32)
    } else {
        None
    }
}

/// The number that `s` spells, as a signed 32-bit integer: an optional
/// sign and decimal digits, within range.
pub open spec fn i32_of(s: Seq<char>) -> Option<i32> {
    let negative = s.len() > 0 && s[0] == '-';
    let digits = if s.len() > 0 && (s[0] == '+' || s[0] == '-') {
        s.drop_first()
    } else {
        s
    };
    if !is_numeral(digits) {
        None
    } else if negative && numeral_value(digits) <= 0x8000_0000 {
        Some((-numeral_value(digits)) as i32)
    } else if !negative && numeral_value(digits) <= i32::MAX {
        Some(numeral_value(digits) as i32)
    } else {
        None
    }
}

proof fn lemma_numeral_nonneg(s: Seq<char>)
    requires
        forall|i: int| 0 <= i < s.len() ==> is_digit(#[trigger] s[i]),
    ensures
        numeral_value(s) >= 0,
    decreases s.len(),
{
    if s.len() > 0 {
        lemma_numeral_nonneg(s.drop_last());
    }
}

/// A numeral is worth at least any of its prefixes.
proof fn lemma_numeral_prefix(s: Seq<char>, i: int)
    requires
        0 <= i <= s.len(),
        forall|k: int| 0 <= k < s.len() ==> is_digit(#[trigger] s[k]),
    ensures
        numeral_value(s.subrange(0, i)) <= numeral_value(s),
    decreases s.len() - i,
{
    if i < s.len() {
        lemma_numeral_prefix(s, i + 1);
        let p = s.subrange(0, i + 1);
        assert(p.drop_last() =~= s.subrange(0, i));
        lemma_numeral_nonneg(s.subrange(0, i));
    } else {
        assert(s.subrange(0, i) =~= s);
    }
}

/// The value of the digits of `s` from `from` on, if they are a numeral
/// worth at most `limit`.
fn numeral_at(s: &Vec<char>, from: usize, limit: u64) -> (r: Option<u64>)
    requires
        from <= s@.len(),
        limit <= u32::MAX + 1,
    ensures
        ({
            let digits = s@.subrange(from as int, s@.len() as int);
            &&& r == if is_numeral(digits) && numeral_value(digits) <= limit {
                Some(numeral_value(digits) as u64)
            } else {
                None::<u64>
            }
            &&& is_numeral(digits) ==> numeral_value(digits) >= 0
        }),
{
    let ghost digits = s@.subrange(from as int, s@.len() as int);
    proof {
        if is_numeral(digits) {
            lemma_numeral_nonneg(digits);
        }
    }
    if from == s.len() {
        return None;
    }
    let mut value: u64 = 0;
    let mut i: usize = from;
    while i < s.len()
        invariant
            from < s@.len(),
            digits == s@.subrange(from as int, s@.len() as int),
            from <= i <= s@.len(),
            forall|k: int| from <= k < i ==> is_digit(#[trigger] s@[k]),
            value == numeral_value(s@.subrange(from as int, i as int)),
            value <= limit,
            limit <= u32::MAX + 1,
        decreases s@.len() - i,
    {
        let c = s[i];
        if !('0' <= c && c <= '9') {
            proof {
                assert(!is_digit(digits[i - from]));
            }
            return None;
        }
        let d = (c as u32 - '0' as u32) as u64;
        assert(d <= 9);
        proof {
            let p = s@.subrange(from as int, i + 1);
            assert(p.drop_last() =~= s@.subrange(from as int, i as int));
        }
        let next = value * 10 + d;
        if next > limit {
            proof {
                if is_numeral(digits) {
                    lemma_numeral_prefix(digits, i + 1 - from);
                    assert(digits.subrange(0, i + 1 - from) =~= s@.subrange(from as int, i + 1));
                }
            }
            return None;
        }
        value = next;
        i = i + 1;
    }
    proof {
        assert(s@.subrange(from as int, i as int) =~= digits);
    }
    Some(value)
}

/// The unsigned 32-bit number that `s` spells, if any.
pub fn parse_u32(s: &Vec<char>) -> (r: Option<u32>)
    ensures
        r == u32_of(s@),
{
    let from: usize = if s.len() > 0 && s[0] == '+' {
        1
    } else {
        0
    };
    proof {
        if from == 1 {
            assert(s@.subrange(1, s@.len() as int) =~= s@.drop_first());
        } else {
            assert(s@.subrange(0, s@.len() as int) =~= s@);
        }
    }
    match numeral_at(s, from, 0xFFFF_FFFF) {
        Some(v) => Some(v as u32),
        None => None,
    }
}

/// The signed 32-bit number that `s` spells, if any.
pub fn parse_i32(s: &Vec<char>) -> (r: Option<i32>)
    ensures
        r == i32_of(s@),
{
    let negative = s.len() > 0 && s[0] == '-';
    let from: usize = if s.len() > 0 && (s[0] == '+' || s[0] == '-') {
        1
    } else {
        0
    };
    proof {
        if from == 1 {
            assert(s@.subrange(1, s@.len() as int) =~= s@.drop_first());
        } else {
            assert(s@.subrange(0, s@.len() as int) =~= s@);
        }
    }
    if negative {
        match numeral_at(s, from, 0x8000_0000) {
            Some(v) => Some((0 - (v as i64)) as i32),
            None => None,
        }
    } else {
        match numeral_at(s, from, 0x7FFF_FFFF) {
            Some(v) => Some(v as i32),
            None => None,
        }
    }
}

/// A count of context lines given as `s`: a negative number counts as
/// none, and anything that is not a number gives `default`.
pub open spec fn context_arg(s: Seq<char>, default: u32) -> u32 {
    match i32_of(s) {
        Some(v) => if v < 0 {
            0
        } else {
            v as u32
        },
        None => default,
    }
}

fn context_count(s: &Vec<char>, default: u32) -> (r: u32)
    ensures
        r == context_arg(s@, default),
{
    match parse_i32(s) {
        Some(v) => if v < 0 {
            0
        } else {
            v as u32
        },
        None => default,
    }
}

/// The words `ws` joined by single spaces.
pub open spec fn join_spaced(ws: Seq<Seq<char>>) -> Seq<char>
    decreases ws.len(),
{
    if ws.len() == 0 {
        Seq::empty()
    } else if ws.len() == 1 {
        ws[0]
    } else {
        join_spaced(ws.drop_last()) + seq![' '] + ws.last()
    }
}

/// The words of `ws` from `from` on, joined by single spaces.
fn join_words_from(ws: &Vec<Vec<char>>, from: usize) -> (r: Vec<char>)
    requires
        from <= ws@.len(),
    ensures
        r@ == join_spaced(Seq::new((ws@.len() - from) as nat, |i: int| ws@[from + i]@)),
{
    let ghost all = Seq::new((ws@.len() - from) as nat, |i: int| ws@[from + i]@);
    let mut r: Vec<char> = Vec::new();
    let mut i: usize = from;
    while i < ws.len()
        invariant
            from <= i <= ws@.len(),
            all == Seq::new((ws@.len() - from) as nat, |i: int| ws@[from + i]@),
            r@ == join_spaced(all.subrange(0, i - from)),
        decreases ws@.len() - i,
    {
        let ghost prev = all.subrange(0, i - from);
        if i > from {
            r.push(' ');
        }
        push_all(&mut r, &ws[i]);
        proof {
            let next = all.subrange(0, i + 1 - from);
            assert(next.drop_last() =~= prev);
            assert(next.last() == ws@[i as int]@);
            if i == from {
                assert(r@ =~= join_spaced(next));
            }
        }
        i = i + 1;
    }
    assert(all.subrange(0, ws@.len() - from) =~= all);
    r
}

/// A command of the document editor.
pub enum Command {
    /// An empty command line.
    Nothing,
    Help,
    /// Show the current line with this many lines of context.
    Context(u32),
    Delete,
    Edit,
    /// Find the text below the current line.
    FindNext(Vec<char>),
    /// Find the text above the current line.
    FindPrev(Vec<char>),
    InsertDown,
    InsertUp,
    Metadata,
    Quit,
    /// Show the line with this index and this many lines of context.
    Print(u32, u32),
    /// Save, to the named file if one is given.
    Write(Option<Vec<char>>),
    /// Save, to the named file if one is given, and quit.
    WriteQuit(Option<Vec<char>>),
    /// Open the named file; `None` when no name was given.
    Open(Option<Vec<char>>),
    /// Show the current line with context, after moving to the line with
    /// this index where a line number was given.
    Goto(Option<u32>),
}

/// `w` is the one-character word `c`.
pub open spec fn is_word(w: Seq<char>, c: char) -> bool {
    w == seq![c]
}

fn word_is(w: &Vec<char>, c: char) -> (r: bool)
    ensures
        r == is_word(w@, c),
{
    if w.len() == 1 && w[0] == c {
        assert(w@ =~= seq![c]);
        true
    } else {
        false
    }
}

/// A one-based line number as an index.
pub open spec fn line_index(n: u32) -> u32 {
    if n == 0 {
        0
    } else {
        (n - 1) as u32
    }
}

/// The characters of an optional name.
pub open spec fn name_view(name: Option<Vec<char>>) -> Option<Seq<char>> {
    match name {
        Some(v) => Some(v@),
        None => None,
    }
}

/// The first argument, if any.
pub open spec fn first_arg(ws: Seq<Seq<char>>) -> Option<Seq<char>> {
    if ws.len() > 1 {
        Some(ws[1])
    } else {
        None
    }
}

/// The arguments joined by single spaces.
pub open spec fn args_text(ws: Seq<Seq<char>>) -> Seq<char> {
    join_spaced(ws.subrange(1, ws.len() as int))
}

/// Interprets a command line whose words are `ws`; `curr` is the index of
/// the current line, where `p` without a number starts.
pub fn parse_command(ws: &Vec<Vec<char>>, curr: u32) -> (r: Command)
    ensures
        ({
            let w = Seq::new(ws@.len(), |i: int| ws@[i]@);
            if w.len() == 0 {
                r is Nothing
            } else if is_word(w[0], '?') {
                r is Help
            } else if is_word(w[0], 'c') {
                r == Command::Context(
                    if w.len() > 1 {
                        context_arg(w[1], 2)
                    } else {
                        2
                    },
                )
            } else if is_word(w[0], 'd') {
                r is Delete
            } else if is_word(w[0], 'e') {
                r is Edit
            } else if is_word(w[0], 'f') {
                r matches Command::FindNext(p) && p@ == args_text(w)
            } else if is_word(w[0], 'F') {
                r matches Command::FindPrev(p) && p@ == args_text(w)
            } else if is_word(w[0], 'i') {
                r is InsertDown
            } else if is_word(w[0], 'I') {
                r is InsertUp
            } else if is_word(w[0], 'm') {
                r is Metadata
            } else if is_word(w[0], 'q') {
                r is Quit
            } else if is_word(w[0], 'p') {
                let line = if w.len() > 1 {
                    match u32_of(w[1]) {
                        Some(n) => line_index(n),
                        None => curr,
                    }
                } else {
                    curr
                };
                let context = if w.len() > 2 {
                    context_arg(w[2], 0)
                } else {
                    0
                };
                r == Command::Print(line, context)
            } else if is_word(w[0], 'w') {
                r matches Command::Write(name) && name_view(name) == first_arg(w)
            } else if is_word(w[0], 'W') {
                r matches Command::WriteQuit(name) && name_view(name) == first_arg(w)
            } else if is_word(w[0], 'o') {
                r matches Command::Open(name) && name_view(name) == first_arg(w)
            } else {
                r == Command::Goto(
                    match u32_of(w[0]) {
                        Some(n) => Some(line_index(n)),
                        None => None,
                    },
                )
            }
        }),
{
    if ws.len() == 0 {
        return Command::Nothing;
    }
    let ghost w = Seq::new(ws@.len(), |i: int| ws@[i]@);
    proof {
        assert(Seq::new((ws@.len() - 1) as nat, |i: int| ws@[1 + i]@) =~= w.subrange(
            1,
            w.len() as int,
        ));
    }
    let name: Option<Vec<char>> = if ws.len() > 1 {
        Some(copy_chars(&ws[1]))
    } else {
        None
    };
    let c = &ws[0];
    if word_is(c, '?') {
        Command::Help
    } else if word_is(c, 'c') {
        Command::Context(
            if ws.len() > 1 {
                context_count(&ws[1], 2)
            } else {
                2
            },
        )
    } else if word_is(c, 'd') {
        Command::Delete
    } else if word_is(c, 'e') {
        Command::Edit
    } else if word_is(c, 'f') {
        Command::FindNext(join_words_from(ws, 1))
    } else if word_is(c, 'F') {
        Command::FindPrev(join_words_from(ws, 1))
    } else if word_is(c, 'i') {
        Command::InsertDown
    } else if word_is(c, 'I') {
        Command::InsertUp
    } else if word_is(c, 'm') {
        Command::Metadata
    } else if word_is(c, 'q') {
        Command::Quit
    } else if word_is(c, 'p') {
        let line = if ws.len() > 1 {
            match parse_u32(&ws[1]) {
                Some(n) => if n == 0 {
                    0
                } else {
                    n - 1
                },
                None => curr,
            }
        } else {
            curr
        };
        let context = if ws.len() > 2 {
            context_count(&ws[2], 0)
        } else {
            0
        };
        Command::Print(line, context)
    } else if word_is(c, 'w') {
        Command::Write(name)
    } else if word_is(c, 'W') {
        Command::WriteQuit(name)
    } else if word_is(c, 'o') {
        Command::Open(name)
    } else {
        Command::Goto(
            match parse_u32(c) {
                Some(n) => Some(
                    if n == 0 {
                        0
                    } else {
                        n - 1
                    },
                ),
                None => None,
            },
        )
    }
}

} // verus!
