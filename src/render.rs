use vstd::prelude::*;

use crate::text::push_all;

verus! {

/// The decimal digit `d` as a character.
pub open spec fn digit(d: nat) -> char {
    seq!['0', '1', '2', '3', '4', '5', '6', '7', '8', '9'][(d % 10) as int]
}

/// The decimal notation of `n`, without leading zeros.
pub open spec fn decimal(n: nat) -> Seq<char>
    decreases n,
{
    if n < 10 {
        seq![digit(n)]
    } else {
        decimal(n / 10).push(digit(n % 10))
    }
}

/// A control sequence `ESC [ n code` with `n` in decimal.
pub open spec fn csi(n: nat, code: char) -> Seq<char> {
    seq!['\x1b', '['] + decimal(n) + seq![code]
}

/// Moves the terminal cursor `n` columns left; nothing for `n == 0`.
pub open spec fn left(n: nat) -> Seq<char> {
    if n == 0 {
        Seq::empty()
    } else {
        csi(n, 'D')
    }
}

/// Moves the terminal cursor `n` columns right; nothing for `n == 0`.
pub open spec fn right(n: nat) -> Seq<char> {
    if n == 0 {
        Seq::empty()
    } else {
        csi(n, 'C')
    }
}

/// Erases the whole terminal line.
pub open spec fn erase_line() -> Seq<char> {
    seq!['\x1b', '[', '2', 'K']
}

/// Repaints the line from position `from` on, when the terminal cursor
/// stands at `visual` and must end at `cursor`: back to `from`, the rest of
/// the line and one blank that covers a character left over by a shrink,
/// then back to `cursor`.
pub open spec fn repaint(content: Seq<char>, from: nat, visual: nat, cursor: nat) -> Seq<char> {
    left((visual - from) as nat) + content.subrange(from as int, content.len() as int) + seq![' ']
        + left((content.len() + 1 - cursor) as nat)
}

/// Returns to the start of the terminal line, erases it and prints the
/// prompt followed by `content`.
pub open spec fn full_line(prompt: Seq<char>, content: Seq<char>) -> Seq<char> {
    seq!['\r'] + erase_line() + prompt + content
}

/// Starts a new terminal line, erases it and prints the bare prompt.
pub open spec fn fresh_prompt(prompt: Seq<char>) -> Seq<char> {
    seq!['\n', '\r'] + erase_line() + prompt
}

/// Ends the edited line.
pub open spec fn line_end() -> Seq<char> {
    seq!['\n', '\r']
}

/// Relies on the `Display` of termion::cursor::Left, which writes
/// `ESC [ n D` with `n` in decimal.
#[verifier::external_body]
fn cursor_left_seq(n: u16) -> (r: Vec<char>)
    ensures
        r@ == csi(n as nat, 'D'),
{
    format!("{}", termion::cursor::Left(n)).chars().collect()
}

/// Relies on the `Display` of termion::cursor::Right, which writes
/// `ESC [ n C` with `n` in decimal.
#[verifier::external_body]
fn cursor_right_seq(n: u16) -> (r: Vec<char>)
    ensures
        r@ == csi(n as nat, 'C'),
{
    format!("{}", termion::cursor::Right(n)).chars().collect()
}

/// Appends a move of `n` columns to the left.
pub fn push_left(out: &mut Vec<char>, n: usize)
    requires
        n <= u16::MAX,
    ensures
        final(out)@ == old(out)@ + left(n as nat),
{
    if n > 0 {
        let s = cursor_left_seq(n as u16);
        push_all(out, &s);
    } else {
        assert(old(out)@ + left(0) =~= old(out)@);
    }
}

/// Appends a move of `n` columns to the right.
pub fn push_right(out: &mut Vec<char>, n: usize)
    requires
        n <= u16::MAX,
    ensures
        final(out)@ == old(out)@ + right(n as nat),
{
    if n > 0 {
        let s = cursor_right_seq(n as u16);
        push_all(out, &s);
    } else {
        assert(old(out)@ + right(0) =~= old(out)@);
    }
}

/// Appends the sequence that erases the terminal line.
pub fn push_erase_line(out: &mut Vec<char>)
    ensures
        final(out)@ == old(out)@ + erase_line(),
{
    out.push('\x1b');
    out.push('[');
    out.push('2');
    out.push('K');
    assert(final(out)@ =~= old(out)@ + erase_line());
}

/// Appends the characters of `content` from `from` to its end.
pub fn push_from(out: &mut Vec<char>, content: &Vec<char>, from: usize)
    requires
        from <= content@.len(),
    ensures
        final(out)@ == old(out)@ + content@.subrange(from as int, content@.len() as int),
{
    let mut i: usize = from;
    while i < content.len()
        invariant
            from <= i <= content@.len(),
            out@ == old(out)@ + content@.subrange(from as int, i as int),
        decreases content@.len() - i,
    {
        out.push(content[i]);
        i = i + 1;
        assert(out@ =~= old(out)@ + content@.subrange(from as int, i as int));
    }
}

/// One terminal operation of the output.
pub enum TermOp {
    /// Print characters from the cursor on, overwriting what stands there.
    Text(Seq<char>),
    /// Move the cursor this many columns left.
    Back(nat),
    /// Move the cursor this many columns right.
    Forward(nat),
    /// Return the cursor to the first column.
    Return,
    /// Erase the whole line.
    Erase,
    /// Go down to a new, blank line.
    NewLine,
}

/// The characters that perform `op`.
pub open spec fn encode(op: TermOp) -> Seq<char> {
    match op {
        TermOp::Text(t) => t,
        TermOp::Back(n) => left(n),
        TermOp::Forward(n) => right(n),
        TermOp::Return => seq!['\r'],
        TermOp::Erase => erase_line(),
        TermOp::NewLine => seq!['\n'],
    }
}

/// The characters that perform `ops` in order.
pub open spec fn encode_all(ops: Seq<TermOp>) -> Seq<char>
    decreases ops.len(),
{
    if ops.len() == 0 {
        Seq::empty()
    } else {
        encode(ops[0]) + encode_all(ops.drop_first())
    }
}

/// The line the terminal shows, from its first column on (blank past the
/// end), and the cursor column.
pub type Screen = (Seq<char>, nat);

/// `row` with `t` printed from column `col` on.
pub open spec fn overwrite(row: Seq<char>, col: nat, t: Seq<char>) -> Seq<char> {
    let n = if row.len() >= col + t.len() {
        row.len()
    } else {
        col + t.len()
    };
    Seq::new(
        n as nat,
        |i: int|
            if col <= i < col + t.len() {
                t[i - col]
            } else if i < row.len() {
                row[i]
            } else {
                ' '
            },
    )
}

/// What the terminal shows after `op`.
pub open spec fn apply(screen: Screen, op: TermOp) -> Screen {
    let (row, col) = screen;
    match op {
        TermOp::Text(t) => (overwrite(row, col, t), col + t.len()),
        TermOp::Back(n) => (row, if n <= col {
            (col - n) as nat
        } else {
            0
        }),
        TermOp::Forward(n) => (row, col + n),
        TermOp::Return => (row, 0),
        TermOp::Erase => (Seq::empty(), col),
        TermOp::NewLine => (Seq::empty(), col),
    }
}

/// What the terminal shows after `ops` in order.
pub open spec fn apply_all(screen: Screen, ops: Seq<TermOp>) -> Screen
    decreases ops.len(),
{
    if ops.len() == 0 {
        screen
    } else {
        apply_all(apply(screen, ops[0]), ops.drop_first())
    }
}

/// The terminal shows `prompt` followed by `content` and blanks, with the
/// cursor on column `cursor` of the content.
pub open spec fn shows(screen: Screen, prompt: Seq<char>, content: Seq<char>, cursor: nat) -> bool {
    let (row, col) = screen;
    &&& col == prompt.len() + cursor
    &&& row.len() >= prompt.len() + content.len()
    &&& forall|i: int|
        0 <= i < row.len() ==> #[trigger] row[i] == if i < prompt.len() {
            prompt[i]
        } else if i < prompt.len() + content.len() {
            content[i - prompt.len()]
        } else {
            ' '
        }
}

/// The operations of `repaint`.
pub open spec fn repaint_ops(content: Seq<char>, from: nat, visual: nat, cursor: nat) -> Seq<
    TermOp,
> {
    seq![
        TermOp::Back((visual - from) as nat),
        TermOp::Text(content.subrange(from as int, content.len() as int) + seq![' ']),
        TermOp::Back((content.len() + 1 - cursor) as nat),
    ]
}

/// The operations of `full_line`.
pub open spec fn full_line_ops(prompt: Seq<char>, content: Seq<char>) -> Seq<TermOp> {
    seq![TermOp::Return, TermOp::Erase, TermOp::Text(prompt + content)]
}

/// The operations of `fresh_prompt`.
pub open spec fn fresh_prompt_ops(prompt: Seq<char>) -> Seq<TermOp> {
    seq![TermOp::NewLine, TermOp::Return, TermOp::Erase, TermOp::Text(prompt)]
}

/// Performing `a` and then `rest`.
pub proof fn lemma_apply_cons(screen: Screen, a: TermOp, rest: Seq<TermOp>)
    ensures
        apply_all(screen, seq![a] + rest) == apply_all(apply(screen, a), rest),
        encode_all(seq![a] + rest) == encode(a) + encode_all(rest),
{
    let ops = seq![a] + rest;
    assert(ops.drop_first() =~= rest);
    assert(ops[0] == a);
}

pub proof fn lemma_apply_one(screen: Screen, a: TermOp)
    ensures
        apply_all(screen, seq![a]) == apply(screen, a),
        encode_all(seq![a]) == encode(a),
{
    lemma_apply_cons(screen, a, Seq::empty());
    assert(seq![a] + Seq::<TermOp>::empty() =~= seq![a]);
    assert(encode(a) + Seq::<char>::empty() =~= encode(a));
}

pub proof fn lemma_apply_three(screen: Screen, a: TermOp, b: TermOp, c: TermOp)
    ensures
        apply_all(screen, seq![a, b, c]) == apply(apply(apply(screen, a), b), c),
        encode_all(seq![a, b, c]) == encode(a) + encode(b) + encode(c),
{
    lemma_apply_cons(screen, a, seq![b, c]);
    assert(seq![a] + seq![b, c] =~= seq![a, b, c]);
    lemma_apply_cons(apply(screen, a), b, seq![c]);
    assert(seq![b] + seq![c] =~= seq![b, c]);
    lemma_apply_one(apply(apply(screen, a), b), c);
    assert(encode(a) + (encode(b) + encode(c)) =~= encode(a) + encode(b) + encode(c));
}

pub proof fn lemma_apply_four(screen: Screen, a: TermOp, b: TermOp, c: TermOp, d: TermOp)
    ensures
        apply_all(screen, seq![a, b, c, d]) == apply(apply(apply(apply(screen, a), b), c), d),
        encode_all(seq![a, b, c, d]) == encode(a) + encode(b) + encode(c) + encode(d),
{
    lemma_apply_cons(screen, a, seq![b, c, d]);
    assert(seq![a] + seq![b, c, d] =~= seq![a, b, c, d]);
    lemma_apply_three(apply(screen, a), b, c, d);
    assert(encode(a) + (encode(b) + encode(c) + encode(d)) =~= encode(a) + encode(b) + encode(
        c,
    ) + encode(d));
}

/// Repainting from `from` on shows the new line: the part before `from` is
/// unchanged, and the trailing blank covers a line that shrank by one.
pub proof fn lemma_repaint_shows(
    screen: Screen,
    prompt: Seq<char>,
    old_content: Seq<char>,
    old_cursor: nat,
    content: Seq<char>,
    from: nat,
    cursor: nat,
)
    requires
        shows(screen, prompt, old_content, old_cursor),
        from <= old_cursor,
        from <= content.len(),
        from <= old_content.len(),
        cursor <= content.len(),
        old_content.len() <= content.len() + 1,
        content.subrange(0, from as int) == old_content.subrange(0, from as int),
    ensures
        shows(apply_all(screen, repaint_ops(content, from, old_cursor, cursor)), prompt, content, cursor),
        encode_all(repaint_ops(content, from, old_cursor, cursor)) == repaint(content, from, old_cursor, cursor),
{
    let ops = repaint_ops(content, from, old_cursor, cursor);
    lemma_apply_three(screen, ops[0], ops[1], ops[2]);
    assert(ops =~= seq![ops[0], ops[1], ops[2]]);
    let s1 = apply(screen, ops[0]);
    assert(s1.1 == prompt.len() + from);
    let t = content.subrange(from as int, content.len() as int) + seq![' '];
    let s2 = apply(s1, ops[1]);
    let p = prompt.len() as int;
    assert forall|i: int| 0 <= i < s2.0.len() implies #[trigger] s2.0[i] == if i < p {
        prompt[i]
    } else if i < p + content.len() {
        content[i - p]
    } else {
        ' '
    } by {
        let row = screen.0;
        assert(s2.0 == overwrite(row, (p + from) as nat, t));
        if i < p {
            assert(row[i] == prompt[i]);
            assert(s2.0[i] == row[i]);
        } else if i < p + from {
            assert(row[i] == old_content[i - p]);
            assert(s2.0[i] == row[i]);
            assert(content.subrange(0, from as int)[i - p] == old_content.subrange(
                0,
                from as int,
            )[i - p]);
            assert(content.subrange(0, from as int)[i - p] == content[i - p]);
            assert(old_content.subrange(0, from as int)[i - p] == old_content[i - p]);
            assert(content[i - p] == old_content[i - p]);
            assert(s2.0[i] == content[i - p]);
        } else if i < p + content.len() {
            assert(s2.0[i] == t[i - p - from]);
            assert(t[i - p - from] == content[i - p]);
            assert(s2.0[i] == content[i - p]);
        } else if i == p + content.len() {
            assert(s2.0[i] == t[i - p - from]);
            assert(s2.0[i] == ' ');
        } else {
            if i < row.len() {
                assert(row[i] == ' ');
            }
            assert(s2.0[i] == ' ');
        }
    }
    assert(s2.0.len() >= p + content.len());
}

/// Reprinting the whole line shows it, with the cursor at its end.
pub proof fn lemma_full_line_shows(screen: Screen, prompt: Seq<char>, content: Seq<char>)
    ensures
        shows(apply_all(screen, full_line_ops(prompt, content)), prompt, content, content.len()),
        encode_all(full_line_ops(prompt, content)) == full_line(prompt, content),
{
    let ops = full_line_ops(prompt, content);
    lemma_apply_three(screen, ops[0], ops[1], ops[2]);
    assert(ops =~= seq![ops[0], ops[1], ops[2]]);
    let r = apply_all(screen, ops);
    assert forall|i: int| 0 <= i < r.0.len() implies #[trigger] r.0[i] == if i < prompt.len() {
        prompt[i]
    } else if i < prompt.len() + content.len() {
        content[i - prompt.len()]
    } else {
        ' '
    } by {}
    assert(seq!['\r'] + erase_line() + (prompt + content) =~= full_line(prompt, content));
}

/// Starting over on a fresh line shows the bare prompt.
pub proof fn lemma_fresh_prompt_shows(screen: Screen, prompt: Seq<char>)
    ensures
        shows(apply_all(screen, fresh_prompt_ops(prompt)), prompt, Seq::empty(), 0),
        encode_all(fresh_prompt_ops(prompt)) == fresh_prompt(prompt),
{
    let ops = fresh_prompt_ops(prompt);
    lemma_apply_four(screen, ops[0], ops[1], ops[2], ops[3]);
    assert(ops =~= seq![ops[0], ops[1], ops[2], ops[3]]);
    let r = apply_all(screen, ops);
    assert forall|i: int| 0 <= i < r.0.len() implies #[trigger] r.0[i] == if i < prompt.len() {
        prompt[i]
    } else if i < prompt.len() + 0 {
        Seq::<char>::empty()[i - prompt.len()]
    } else {
        ' '
    } by {}
    assert(seq!['\n'] + seq!['\r'] + erase_line() + prompt =~= fresh_prompt(prompt));
}

/// On a blank line with the cursor in the first column, printing the prompt
/// and the initial line shows them, with the cursor at the line's end.
pub proof fn lemma_start_shows(prompt: Seq<char>, content: Seq<char>)
    ensures
        shows(
            apply_all((Seq::empty(), 0), seq![TermOp::Text(prompt + content)]),
            prompt,
            content,
            content.len(),
        ),
        encode_all(seq![TermOp::Text(prompt + content)]) == prompt + content,
{
    lemma_apply_one((Seq::empty(), 0), TermOp::Text(prompt + content));
    let r = apply_all((Seq::<char>::empty(), 0nat), seq![TermOp::Text(prompt + content)]);
    assert forall|i: int| 0 <= i < r.0.len() implies #[trigger] r.0[i] == if i < prompt.len() {
        prompt[i]
    } else if i < prompt.len() + content.len() {
        content[i - prompt.len()]
    } else {
        ' '
    } by {}
}

} // verus!
