use vstd::prelude::*;

use crate::history::{HistoryStore, NextEntry};
use crate::key::KeyEvent;
use crate::line_buffer::{truncated, LineBuffer, CAPACITY};
use crate::render::{
    apply_all, encode_all, fresh_prompt, fresh_prompt_ops, full_line, full_line_ops, left,
    lemma_apply_one, lemma_fresh_prompt_shows, lemma_full_line_shows, lemma_repaint_shows,
    line_end, push_erase_line, push_from, push_left, push_right, repaint, repaint_ops, right,
    shows, Screen, TermOp,
};
use crate::text::push_all;

verus! {

/// What a key does to the line `content` with its cursor, apart from the
/// history keys and submission.
pub open spec fn edit_effect(content: Seq<char>, cursor: nat, key: KeyEvent) -> (Seq<char>, nat) {
    match key {
        KeyEvent::Char(ch) => if content.len() < CAPACITY {
            (content.insert(cursor as int, ch), cursor + 1)
        } else {
            (content, cursor)
        },
        KeyEvent::Ctrl(ch) => if ch == 'c' {
            (Seq::empty(), 0)
        } else {
            (content, cursor)
        },
        KeyEvent::Left => if cursor > 0 {
            (content, (cursor - 1) as nat)
        } else {
            (content, cursor)
        },
        KeyEvent::Right => if cursor < content.len() {
            (content, cursor + 1)
        } else {
            (content, cursor)
        },
        KeyEvent::Home => (content, 0),
        KeyEvent::End => (content, content.len()),
        KeyEvent::Backspace => if cursor > 0 {
            (content.remove(cursor - 1), (cursor - 1) as nat)
        } else {
            (content, cursor)
        },
        KeyEvent::Delete => if cursor < content.len() {
            (content.remove(cursor as int), cursor)
        } else {
            (content, cursor)
        },
        _ => (content, cursor),
    }
}

/// The terminal output that keeps the visible line in step with
/// `edit_effect`: a character typed at the end is echoed, a change inside
/// the line repaints from the edit point on, cursor moves are relative, and
/// clearing starts over on a fresh line.
pub open spec fn edit_echo(prompt: Seq<char>, content: Seq<char>, cursor: nat, key: KeyEvent) -> Seq<
    char,
> {
    let after = edit_effect(content, cursor, key);
    match key {
        KeyEvent::Char(ch) => if content.len() >= CAPACITY {
            Seq::empty()
        } else if cursor == content.len() {
            seq![ch]
        } else {
            repaint(after.0, cursor, cursor, after.1)
        },
        KeyEvent::Ctrl(ch) => if ch == 'c' {
            fresh_prompt(prompt)
        } else {
            Seq::empty()
        },
        KeyEvent::Left => if cursor > 0 {
            left(1)
        } else {
            Seq::empty()
        },
        KeyEvent::Right => if cursor < content.len() {
            right(1)
        } else {
            Seq::empty()
        },
        KeyEvent::Home => left(cursor),
        KeyEvent::End => right((content.len() - cursor) as nat),
        KeyEvent::Backspace => if cursor > 0 {
            repaint(after.0, (cursor - 1) as nat, cursor, after.1)
        } else {
            Seq::empty()
        },
        KeyEvent::Delete => if cursor < content.len() {
            repaint(after.0, cursor, cursor, after.1)
        } else {
            Seq::empty()
        },
        _ => Seq::empty(),
    }
}

/// One step of line editing: from the line (content, cursor) and the
/// history (entries, index), a key gives the next line, the next history
/// and the terminal output. Up and Down recall history entries only where
/// `history_enabled`; a submitted line is added to the history only there.
pub open spec fn key_step(
    prompt: Seq<char>,
    history_enabled: bool,
    line: (Seq<char>, nat),
    history: (Seq<Seq<char>>, nat),
    key: KeyEvent,
) -> ((Seq<char>, nat), (Seq<Seq<char>>, nat), Seq<char>) {
    let (entries, index) = history;
    if key is Submit {
        if history_enabled {
            (line, (entries.push(line.0), entries.len() + 1), line_end())
        } else {
            (line, history, line_end())
        }
    } else if history_enabled && key is Up {
        if index > 0 {
            let e = truncated(entries[index - 1]);
            ((e, e.len()), (entries, (index - 1) as nat), full_line(prompt, e))
        } else {
            (line, history, Seq::empty())
        }
    } else if history_enabled && key is Down {
        if index + 1 < entries.len() {
            let e = truncated(entries[index + 1 as int]);
            ((e, e.len()), (entries, index + 1), full_line(prompt, e))
        } else {
            ((Seq::empty(), 0), (entries, entries.len()), full_line(prompt, Seq::empty()))
        }
    } else {
        let next_history = if key == KeyEvent::Ctrl('c') {
            (entries, entries.len())
        } else {
            history
        };
        (
            edit_effect(line.0, line.1, key),
            next_history,
            edit_echo(prompt, line.0, line.1, key),
        )
    }
}

/// The state of one call that collects a line: the prompt, the edit
/// buffer, whether history navigation is on, and whether the line has been
/// submitted.
pub struct EditSession {
    prompt: Vec<char>,
    buffer: LineBuffer,
    history_enabled: bool,
    submitted: bool,
}

impl EditSession {
    pub closed spec fn wf(&self) -> bool {
        self.buffer.wf()
    }

    pub closed spec fn prompt(&self) -> Seq<char> {
        self.prompt@
    }

    /// The line and its cursor.
    pub closed spec fn line(&self) -> (Seq<char>, nat) {
        (self.buffer.content(), self.buffer.cursor())
    }

    pub closed spec fn history_enabled(&self) -> bool {
        self.history_enabled
    }

    pub closed spec fn submitted(&self) -> bool {
        self.submitted
    }

    /// In every session the cursor lies within the line and the line within
    /// capacity.
    pub proof fn lemma_bounds(&self)
        requires
            self.wf(),
        ensures
            self.line().1 <= self.line().0.len() <= CAPACITY,
    {
        self.buffer.lemma_bounds();
    }

    /// A session that edits `line` in place, with the cursor at its end and
    /// history navigation off, and the output that shows the prompt and the
    /// line.
    pub fn edit_existing(prompt: Vec<char>, line: &Vec<char>) -> (r: (EditSession, Vec<char>))
        ensures
            r.0.wf(),
            r.0.prompt() == prompt@,
            r.0.line() == (truncated(line@), truncated(line@).len()),
            !r.0.history_enabled(),
            !r.0.submitted(),
            r.1@ == prompt@ + truncated(line@),
    {
        let mut buffer = LineBuffer::new();
        buffer.replace_all(line);
        let mut out: Vec<char> = Vec::new();
        push_all(&mut out, &prompt);
        let content = buffer.to_vec();
        push_all(&mut out, &content);
        (EditSession { prompt, buffer, history_enabled: false, submitted: false }, out)
    }

    /// The line as it stands.
    pub fn text(&self) -> (r: Vec<char>)
        requires
            self.wf(),
        ensures
            r@ == self.line().0,
    {
        self.buffer.to_vec()
    }

    /// The cursor position within the line.
    pub fn cursor_pos(&self) -> (r: usize)
        requires
            self.wf(),
        ensures
            r == self.line().1,
    {
        self.buffer.cursor_pos()
    }

    /// Whether the line has been submitted.
    pub fn is_submitted(&self) -> (r: bool)
        ensures
            r == self.submitted(),
    {
        self.submitted
    }
}

/// The line editor: it keeps the history of submitted lines across calls.
pub struct Terminal {
    history: HistoryStore,
}

impl Terminal {
    pub closed spec fn wf(&self) -> bool {
        self.history.wf()
    }

    /// The history as (entries, navigation index).
    pub closed spec fn history(&self) -> (Seq<Seq<char>>, nat) {
        (self.history.entries(), self.history.index())
    }

    /// An editor with an empty history.
    pub fn new() -> (r: Terminal)
        ensures
            r.wf(),
            r.history() == (Seq::<Seq<char>>::empty(), 0nat),
    {
        Terminal { history: HistoryStore::new() }
    }

    /// An editor that starts from a history loaded earlier.
    pub fn with_history(history: HistoryStore) -> (r: Terminal)
        requires
            history.wf(),
        ensures
            r.wf(),
            r.history() == (history.entries(), history.index()),
    {
        Terminal { history }
    }

    /// The history entries, oldest first.
    pub fn history_store(&self) -> (r: &HistoryStore)
        ensures
            (r.entries(), r.index()) == self.history(),
            self.wf() ==> r.wf(),
    {
        &self.history
    }

    /// A session that reads a fresh line with history navigation on, no
    /// history entry selected, and the output that shows the prompt.
    pub fn start_readline(&mut self, prompt: Vec<char>) -> (r: (EditSession, Vec<char>))
        requires
            old(self).wf(),
        ensures
            final(self).wf(),
            final(self).history() == (old(self).history().0, old(self).history().0.len()),
            r.0.wf(),
            r.0.prompt() == prompt@,
            r.0.line() == (Seq::<char>::empty(), 0nat),
            r.0.history_enabled(),
            !r.0.submitted(),
            r.1@ == prompt@,
    {
        self.history.reset_navigation();
        let mut out: Vec<char> = Vec::new();
        push_all(&mut out, &prompt);
        (EditSession { prompt, buffer: LineBuffer::new(), history_enabled: true, submitted: false }, out)
    }

    /// Applies one key to an unfinished session and returns the terminal
    /// output that keeps the visible line in step.
    pub fn handle_key(&mut self, session: &mut EditSession, key: KeyEvent) -> (out: Vec<char>)
        requires
            old(self).wf(),
            old(session).wf(),
            !old(session).submitted(),
        ensures
            final(self).wf(),
            final(session).wf(),
            final(session).prompt() == old(session).prompt(),
            final(session).history_enabled() == old(session).history_enabled(),
            final(session).submitted() == (key is Submit),
            (final(session).line(), final(self).history(), out@) == key_step(
                old(session).prompt(),
                old(session).history_enabled(),
                old(session).line(),
                old(self).history(),
                key,
            ),
    {
        let mut out: Vec<char> = Vec::new();
        let ghost prompt = session.prompt@;
        let ghost content = session.buffer.content();
        let ghost cursor = session.buffer.cursor();
        proof {
            session.buffer.lemma_bounds();
        }
        match key {
            KeyEvent::Submit => {
                if session.history_enabled {
                    let line = session.buffer.to_vec();
                    self.history.append(line);
                }
                out.push('\n');
                out.push('\r');
                session.submitted = true;
                assert(out@ =~= line_end());
            },
            KeyEvent::Up if session.history_enabled => {
                match self.history.navigate_prev() {
                    Some(entry) => {
                        session.buffer.replace_all(&entry);
                        self.push_full_line(&mut out, session);
                    },
                    None => {},
                }
            },
            KeyEvent::Down if session.history_enabled => {
                match self.history.navigate_next() {
                    NextEntry::Entry(entry) => {
                        session.buffer.replace_all(&entry);
                    },
                    NextEntry::Fresh => {
                        session.buffer.clear();
                    },
                }
                self.push_full_line(&mut out, session);
                proof {
                    assert(truncated(Seq::<char>::empty()) == Seq::<char>::empty());
                }
            },
            KeyEvent::Char(ch) => {
                let at = session.buffer.cursor_pos();
                let at_end = at == session.buffer.len();
                if session.buffer.insert(ch) {
                    if at_end {
                        out.push(ch);
                        assert(out@ =~= seq![ch]);
                    } else {
                        Self::push_repaint(&mut out, &session.buffer, at, at);
                    }
                }
            },
            KeyEvent::Ctrl(ch) => {
                if ch == 'c' {
                    session.buffer.clear();
                    self.history.reset_navigation();
                    out.push('\n');
                    out.push('\r');
                    push_erase_line(&mut out);
                    push_all(&mut out, &session.prompt);
                    assert(out@ =~= fresh_prompt(prompt));
                }
            },
            KeyEvent::Left => {
                if session.buffer.move_left() {
                    push_left(&mut out, 1);
                }
            },
            KeyEvent::Right => {
                if session.buffer.move_right() {
                    push_right(&mut out, 1);
                }
            },
            KeyEvent::Home => {
                let at = session.buffer.cursor_pos();
                session.buffer.move_home();
                push_left(&mut out, at);
            },
            KeyEvent::End => {
                let at = session.buffer.cursor_pos();
                session.buffer.move_end();
                push_right(&mut out, session.buffer.len() - at);
            },
            KeyEvent::Backspace => {
                let at = session.buffer.cursor_pos();
                if session.buffer.backspace() {
                    Self::push_repaint(&mut out, &session.buffer, at - 1, at);
                }
            },
            KeyEvent::Delete => {
                let at = session.buffer.cursor_pos();
                if session.buffer.delete_forward() {
                    Self::push_repaint(&mut out, &session.buffer, at, at);
                }
            },
            _ => {},
        }
        out
    }

    /// Appends the output that reprints the whole line of `session`.
    fn push_full_line(&self, out: &mut Vec<char>, session: &EditSession)
        requires
            session.wf(),
            old(out)@ == Seq::<char>::empty(),
        ensures
            final(out)@ == full_line(session.prompt(), session.line().0),
    {
        out.push('\r');
        push_erase_line(out);
        push_all(out, &session.prompt);
        let content = session.buffer.to_vec();
        push_all(out, &content);
        assert(final(out)@ =~= full_line(session.prompt(), session.line().0));
    }

    /// Appends the output that repaints the line of `buffer` from `from` on,
    /// with the terminal cursor at `visual`.
    fn push_repaint(out: &mut Vec<char>, buffer: &LineBuffer, from: usize, visual: usize)
        requires
            buffer.wf(),
            old(out)@ == Seq::<char>::empty(),
            from <= visual <= buffer.content().len() + 1,
            from <= buffer.content().len(),
        ensures
            final(out)@ == repaint(buffer.content(), from as nat, visual as nat, buffer.cursor()),
    {
        proof {
            buffer.lemma_bounds();
        }
        push_left(out, visual - from);
        let content = buffer.to_vec();
        push_from(out, &content, from);
        out.push(' ');
        push_left(out, buffer.len() + 1 - buffer.cursor_pos());
        assert(final(out)@ =~= repaint(buffer.content(), from as nat, visual as nat, buffer.cursor()));
    }
}

/// The line keeps `cursor <= length <= CAPACITY` and the history keeps its
/// index within `[0, size]` across every key.
pub proof fn lemma_step_keeps_bounds(
    prompt: Seq<char>,
    history_enabled: bool,
    line: (Seq<char>, nat),
    history: (Seq<Seq<char>>, nat),
    key: KeyEvent,
)
    requires
        line.1 <= line.0.len() <= CAPACITY,
        history.1 <= history.0.len(),
    ensures
        ({
            let (next_line, next_history, _) = key_step(
                prompt,
                history_enabled,
                line,
                history,
                key,
            );
            next_line.1 <= next_line.0.len() <= CAPACITY && next_history.1 <= next_history.0.len()
        }),
{
}

/// A line submitted with history on is the first line that Up recalls in
/// the next fresh read.
pub proof fn lemma_submit_then_recall(
    prompt: Seq<char>,
    next_prompt: Seq<char>,
    line: (Seq<char>, nat),
    history: (Seq<Seq<char>>, nat),
)
    requires
        line.1 <= line.0.len() <= CAPACITY,
        history.1 <= history.0.len(),
    ensures
        ({
            let (_, submitted, _) = key_step(prompt, true, line, history, KeyEvent::Submit);
            let fresh = (submitted.0, submitted.0.len());
            let (recalled, _, _) = key_step(
                next_prompt,
                true,
                (Seq::empty(), 0),
                fresh,
                KeyEvent::Up,
            );
            recalled == (line.0, line.0.len())
        }),
{
    let (_, submitted, _) = key_step(prompt, true, line, history, KeyEvent::Submit);
    assert(submitted.0[submitted.0.len() - 1] == line.0);
}

/// The terminal operations that `edit_echo` spells.
pub open spec fn edit_ops(prompt: Seq<char>, content: Seq<char>, cursor: nat, key: KeyEvent) -> Seq<
    TermOp,
> {
    let after = edit_effect(content, cursor, key);
    match key {
        KeyEvent::Char(ch) => if content.len() >= CAPACITY {
            Seq::empty()
        } else if cursor == content.len() {
            seq![TermOp::Text(seq![ch])]
        } else {
            repaint_ops(after.0, cursor, cursor, after.1)
        },
        KeyEvent::Ctrl(ch) => if ch == 'c' {
            fresh_prompt_ops(prompt)
        } else {
            Seq::empty()
        },
        KeyEvent::Left => if cursor > 0 {
            seq![TermOp::Back(1)]
        } else {
            Seq::empty()
        },
        KeyEvent::Right => if cursor < content.len() {
            seq![TermOp::Forward(1)]
        } else {
            Seq::empty()
        },
        KeyEvent::Home => seq![TermOp::Back(cursor)],
        KeyEvent::End => seq![TermOp::Forward((content.len() - cursor) as nat)],
        KeyEvent::Backspace => if cursor > 0 {
            repaint_ops(after.0, (cursor - 1) as nat, cursor, after.1)
        } else {
            Seq::empty()
        },
        KeyEvent::Delete => if cursor < content.len() {
            repaint_ops(after.0, cursor, cursor, after.1)
        } else {
            Seq::empty()
        },
        _ => Seq::empty(),
    }
}

/// The terminal operations that the output of `key_step` spells, for every
/// key but `Submit`.
pub open spec fn step_ops(
    prompt: Seq<char>,
    history_enabled: bool,
    line: (Seq<char>, nat),
    history: (Seq<Seq<char>>, nat),
    key: KeyEvent,
) -> Seq<TermOp> {
    let next = key_step(prompt, history_enabled, line, history, key);
    if history_enabled && (key is Up || key is Down) {
        if key is Up && history.1 == 0 {
            Seq::empty()
        } else {
            full_line_ops(prompt, next.0.0)
        }
    } else {
        edit_ops(prompt, line.0, line.1, key)
    }
}

/// The edit operations keep the visible line in step with the buffer.
proof fn lemma_edit_ops_show(
    screen: Screen,
    prompt: Seq<char>,
    content: Seq<char>,
    cursor: nat,
    key: KeyEvent,
)
    requires
        cursor <= content.len() <= CAPACITY,
        shows(screen, prompt, content, cursor),
    ensures
        encode_all(edit_ops(prompt, content, cursor, key)) == edit_echo(prompt, content, cursor, key),
        shows(
            apply_all(screen, edit_ops(prompt, content, cursor, key)),
            prompt,
            edit_effect(content, cursor, key).0,
            edit_effect(content, cursor, key).1,
        ),
{
    let ops = edit_ops(prompt, content, cursor, key);
    let after = edit_effect(content, cursor, key);
    assert(apply_all(screen, Seq::empty()) == screen);
    assert(encode_all(Seq::<TermOp>::empty()) == Seq::<char>::empty());
    match key {
        KeyEvent::Char(ch) => {
            if content.len() < CAPACITY {
                if cursor == content.len() {
                    lemma_apply_one(screen, ops[0]);
                    assert(ops =~= seq![ops[0]]);
                    let r = apply_all(screen, ops);
                    let p = prompt.len() as int;
                    assert(after.0 =~= content.push(ch));
                    assert forall|i: int| 0 <= i < r.0.len() implies #[trigger] r.0[i] == if i
                        < p {
                        prompt[i]
                    } else if i < p + after.0.len() {
                        after.0[i - p]
                    } else {
                        ' '
                    } by {
                        if i < p + content.len() {
                            assert(r.0[i] == screen.0[i]);
                        }
                    }
                } else {
                    assert(after.0.subrange(0, cursor as int) =~= content.subrange(
                        0,
                        cursor as int,
                    ));
                    lemma_repaint_shows(screen, prompt, content, cursor, after.0, cursor, after.1);
                }
            }
        },
        KeyEvent::Ctrl(ch) => {
            if ch == 'c' {
                lemma_fresh_prompt_shows(screen, prompt);
            }
        },
        KeyEvent::Left => {
            if cursor > 0 {
                lemma_apply_one(screen, ops[0]);
                assert(ops =~= seq![ops[0]]);
            }
        },
        KeyEvent::Right => {
            if cursor < content.len() {
                lemma_apply_one(screen, ops[0]);
                assert(ops =~= seq![ops[0]]);
            }
        },
        KeyEvent::Home => {
            lemma_apply_one(screen, ops[0]);
            assert(ops =~= seq![ops[0]]);
        },
        KeyEvent::End => {
            lemma_apply_one(screen, ops[0]);
            assert(ops =~= seq![ops[0]]);
        },
        KeyEvent::Backspace => {
            if cursor > 0 {
                assert(after.0.subrange(0, cursor - 1) =~= content.subrange(0, cursor - 1));
                lemma_repaint_shows(
                    screen,
                    prompt,
                    content,
                    cursor,
                    after.0,
                    (cursor - 1) as nat,
                    after.1,
                );
            }
        },
        KeyEvent::Delete => {
            if cursor < content.len() {
                assert(after.0.subrange(0, cursor as int) =~= content.subrange(0, cursor as int));
                lemma_repaint_shows(screen, prompt, content, cursor, after.0, cursor, after.1);
            }
        },
        _ => {},
    }
}

/// The output of every key but `Submit` spells terminal operations that
/// take a line showing the prompt and the buffer, with the terminal cursor
/// at the buffer's cursor, to one that shows the next buffer the same way.
pub proof fn lemma_step_keeps_screen(
    screen: Screen,
    prompt: Seq<char>,
    history_enabled: bool,
    line: (Seq<char>, nat),
    history: (Seq<Seq<char>>, nat),
    key: KeyEvent,
)
    requires
        line.1 <= line.0.len() <= CAPACITY,
        history.1 <= history.0.len(),
        !(key is Submit),
        shows(screen, prompt, line.0, line.1),
    ensures
        ({
            let (next_line, _, out) = key_step(prompt, history_enabled, line, history, key);
            let ops = step_ops(prompt, history_enabled, line, history, key);
            &&& encode_all(ops) == out
            &&& shows(apply_all(screen, ops), prompt, next_line.0, next_line.1)
        }),
{
    let next = key_step(prompt, history_enabled, line, history, key);
    if history_enabled && (key is Up || key is Down) {
        if key is Up && history.1 == 0 {
            assert(apply_all(screen, Seq::empty()) == screen);
            assert(encode_all(Seq::<TermOp>::empty()) == Seq::<char>::empty());
        } else {
            lemma_full_line_shows(screen, prompt, next.0.0);
            assert(truncated(Seq::<char>::empty()) =~= Seq::<char>::empty());
        }
    } else {
        lemma_edit_ops_show(screen, prompt, line.0, line.1, key);
    }
}

} // verus!
