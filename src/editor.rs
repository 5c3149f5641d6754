use vstd::prelude::*;

use crate::key::KeyEvent;
use crate::terminal::{key_step, EditSession, Terminal};
use crate::line_buffer::truncated;
use crate::text::push_all;

verus! {

/// `pattern` occurs in `s` starting at `at`.
pub open spec fn occurs_at(s: Seq<char>, pattern: Seq<char>, at: int) -> bool {
    0 <= at && at + pattern.len() <= s.len() && s.subrange(at, at + pattern.len()) == pattern
}

/// `pattern` occurs somewhere in `s`.
pub open spec fn contains(s: Seq<char>, pattern: Seq<char>) -> bool {
    exists|at: int| occurs_at(s, pattern, at)
}

/// Whether `pattern` occurs in `s` starting at `at`.
pub fn occurs_at_pos(s: &Vec<char>, pattern: &Vec<char>, at: usize) -> (r: bool)
    ensures
        r == occurs_at(s@, pattern@, at as int),
{
    if at > s.len() || pattern.len() > s.len() - at {
        return false;
    }
    let slen = s.len();
    let mut j: usize = 0;
    while j < pattern.len()
        invariant
            slen == s@.len(),
            at + pattern@.len() <= s@.len(),
            j <= pattern@.len(),
            forall|m: int| 0 <= m < j ==> s@[at + m] == pattern@[m],
        decreases pattern@.len() - j,
    {
        if s[at + j] != pattern[j] {
            assert(s@.subrange(at as int, at + pattern@.len())[j as int] == s@[at + j]);
            return false;
        }
        j = j + 1;
    }
    assert(s@.subrange(at as int, at + pattern@.len()) =~= pattern@);
    true
}

/// Whether `pattern` occurs in `s`.
pub fn contains_chars(s: &Vec<char>, pattern: &Vec<char>) -> (r: bool)
    ensures
        r == contains(s@, pattern@),
{
    let mut at: usize = 0;
    while at < s.len()
        invariant
            at <= s@.len(),
            forall|k: int| 0 <= k < at ==> !occurs_at(s@, pattern@, k),
        decreases s@.len() - at,
    {
        if occurs_at_pos(s, pattern, at) {
            return true;
        }
        at = at + 1;
    }
    if occurs_at_pos(s, pattern, at) {
        return true;
    }
    assert forall|k: int| !occurs_at(s@, pattern@, k) by {
        if k > at {
            assert(k + pattern@.len() > s@.len());
        }
    }
    false
}

/// `parts` joined with `sep` between each two.
pub open spec fn join_with(parts: Seq<Seq<char>>, sep: Seq<char>) -> Seq<char>
    decreases parts.len(),
{
    if parts.len() == 0 {
        Seq::empty()
    } else if parts.len() == 1 {
        parts[0]
    } else {
        join_with(parts.drop_last(), sep) + sep + parts.last()
    }
}

/// `parts` cut `text` at each occurrence of `sep`: joined with `sep` they
/// give `text`, and none holds `sep`. This fixes the parts for the line
/// separators used here (a line feed, or a carriage return and a line
/// feed), which cannot overlap themselves.
pub open spec fn is_split(parts: Seq<Seq<char>>, text: Seq<char>, sep: Seq<char>) -> bool {
    &&& parts.len() > 0
    &&& join_with(parts, sep) == text
    &&& forall|i: int| 0 <= i < parts.len() ==> !contains(#[trigger] parts[i], sep)
}

proof fn lemma_join_extend(parts: Seq<Seq<char>>, last: Seq<char>, tail: Seq<char>, sep: Seq<char>)
    ensures
        join_with(parts.push(last + tail), sep) == join_with(parts.push(last), sep) + tail,
{
    assert(parts.push(last + tail).drop_last() =~= parts);
    assert(parts.push(last).drop_last() =~= parts);
    if parts.len() == 0 {
    } else {
        assert(join_with(parts, sep) + sep + (last + tail) =~= join_with(parts, sep) + sep + last
            + tail);
    }
}

/// Cuts `text` at each occurrence of `sep`.
fn split_on(text: &Vec<char>, sep: &Vec<char>) -> (r: Vec<Vec<char>>)
    requires
        sep@.len() > 0,
    ensures
        is_split(line_views(r@), text@, sep@),
{
    let n = text.len();
    let k = sep.len();
    let mut r: Vec<Vec<char>> = Vec::new();
    let mut cur: Vec<char> = Vec::new();
    let mut start: usize = 0;
    let mut i: usize = 0;
    assert(line_views(r@).push(cur@) =~= seq![cur@]);
    while i < n
        invariant
            n == text@.len(),
            k == sep@.len(),
            k > 0,
            start <= i <= n,
            cur@ == text@.subrange(start as int, i as int),
            join_with(line_views(r@).push(cur@), sep@) == text@.subrange(0, i as int),
            forall|m: int| 0 <= m < r@.len() ==> !contains(#[trigger] line_views(r@)[m], sep@),
            forall|pos: int| start <= pos < i ==> !occurs_at(text@, sep@, pos),
        decreases n - i,
    {
        if occurs_at_pos(text, sep, i) {
            let ghost parts = line_views(r@);
            let ghost done = cur@;
            proof {
                assert forall|j: int| !occurs_at(done, sep@, j) by {
                    if occurs_at(done, sep@, j) {
                        assert(done.subrange(j, j + k) =~= text@.subrange(start + j, start + j + k));
                        assert(occurs_at(text@, sep@, start + j));
                    }
                }
            }
            r.push(cur);
            cur = Vec::new();
            proof {
                let np = line_views(r@);
                assert(np =~= parts.push(done));
                assert(np.push(cur@).drop_last() =~= np);
                assert(text@.subrange(i as int, i + k) =~= sep@);
                assert(text@.subrange(0, i + k) =~= text@.subrange(0, i as int) + sep@);
                assert(join_with(np.push(cur@), sep@) =~= join_with(np, sep@) + sep@);
            }
            i = i + k;
            start = i;
        } else {
            let ghost before = cur@;
            cur.push(text[i]);
            proof {
                lemma_join_extend(line_views(r@), before, seq![text@[i as int]], sep@);
                assert(before + seq![text@[i as int]] =~= cur@);
                assert(text@.subrange(0, i + 1) =~= text@.subrange(0, i as int) + seq![text@[i as int]]);
                assert(cur@ =~= text@.subrange(start as int, i + 1));
            }
            i = i + 1;
        }
    }
    let ghost parts = line_views(r@);
    let ghost done = cur@;
    proof {
        assert forall|j: int| !occurs_at(done, sep@, j) by {
            if occurs_at(done, sep@, j) {
                assert(done.subrange(j, j + k) =~= text@.subrange(start + j, start + j + k));
                assert(occurs_at(text@, sep@, start + j));
            }
        }
    }
    r.push(cur);
    proof {
        assert(line_views(r@) =~= parts.push(done));
        assert(text@.subrange(0, n as int) =~= text@);
    }
    r
}

proof fn lemma_join_len(parts: Seq<Seq<char>>, sep: Seq<char>)
    requires
        sep.len() > 0,
    ensures
        parts.len() <= join_with(parts, sep).len() + 1,
    decreases parts.len(),
{
    if parts.len() > 1 {
        lemma_join_len(parts.drop_last(), sep);
    }
}

/// The line separator: a carriage return and a line feed, or a line feed.
pub open spec fn newline(crlf: bool) -> Seq<char> {
    if crlf {
        seq!['\r', '\n']
    } else {
        seq!['\n']
    }
}

/// The lines of a document's text, cut at each separator.
pub fn document_lines(text: &Vec<char>, crlf: bool) -> (r: Vec<Vec<char>>)
    ensures
        is_split(line_views(r@), text@, newline(crlf)),
        r@.len() <= text@.len() + 1,
{
    let sep: Vec<char> = if crlf {
        vec!['\r', '\n']
    } else {
        vec!['\n']
    };
    assert(sep@ =~= newline(crlf));
    let r = split_on(text, &sep);
    proof {
        lemma_join_len(line_views(r@), sep@);
    }
    r
}

/// A document held as a sequence of lines with a current line, edited
/// through commands that the line editor collects.
pub struct Editor {
    filename: Option<String>,
    crlf: bool,
    terminal: Terminal,
    contents: Vec<Vec<char>>,
    curr_line: u32,
}

/// The character sequences that the vectors of `v` hold.
pub open spec fn line_views(v: Seq<Vec<char>>) -> Seq<Seq<char>> {
    Seq::new(v.len(), |i: int| v[i]@)
}

impl Editor {
    /// The document fits the index type of the current line, and the line
    /// editor is well formed.
    pub closed spec fn wf(&self) -> bool {
        &&& self.contents@.len() <= u32::MAX
        &&& self.terminal.wf()
    }

    /// The lines of the document.
    pub closed spec fn lines(&self) -> Seq<Seq<char>> {
        line_views(self.contents@)
    }

    /// The index of the current line.
    pub closed spec fn current(&self) -> nat {
        self.curr_line as nat
    }

    /// The line editor's history, as (entries, navigation index).
    pub closed spec fn history(&self) -> (Seq<Seq<char>>, nat) {
        self.terminal.history()
    }

    pub closed spec fn file_name(&self) -> Option<String> {
        self.filename
    }

    /// Whether lines are separated by a carriage return and a line feed.
    pub closed spec fn uses_crlf(&self) -> bool {
        self.crlf
    }

    /// An editor with no file, no lines, line feeds as separators and an
    /// empty history.
    pub fn new_empty() -> (r: Editor)
        ensures
            r.wf(),
            r.lines() == Seq::<Seq<char>>::empty(),
            r.current() == 0,
            r.file_name().is_none(),
            !r.uses_crlf(),
            r.history() == (Seq::<Seq<char>>::empty(), 0nat),
    {
        let r = Editor {
            filename: None,
            crlf: false,
            terminal: Terminal::new(),
            contents: Vec::new(),
            curr_line: 0,
        };
        assert(r.lines() =~= Seq::<Seq<char>>::empty());
        r
    }

    /// An editor on the given lines, with the first line current.
    pub fn with_contents(
        filename: Option<String>,
        crlf: bool,
        contents: Vec<Vec<char>>,
        terminal: Terminal,
    ) -> (r: Editor)
        requires
            contents@.len() <= u32::MAX,
            terminal.wf(),
        ensures
            r.wf(),
            r.lines() == line_views(contents@),
            r.current() == 0,
            r.file_name() == filename,
            r.uses_crlf() == crlf,
            r.history() == terminal.history(),
    {
        Editor { filename, crlf, terminal, contents, curr_line: 0 }
    }

    /// An editor on the text of the file `filename`; lines are separated by
    /// a carriage return and a line feed where the text holds a carriage
    /// return, else by a line feed.
    pub fn from_text(filename: String, text: &Vec<char>, terminal: Terminal) -> (r: Editor)
        requires
            text@.len() < u32::MAX,
            terminal.wf(),
        ensures
            r.wf(),
            r.uses_crlf() == text@.contains('\r'),
            is_split(r.lines(), text@, newline(r.uses_crlf())),
            r.current() == 0,
            r.file_name() == Some(filename),
            r.history() == terminal.history(),
    {
        let cr: Vec<char> = vec!['\r'];
        let crlf = contains_chars(text, &cr);
        proof {
            if crlf {
                let at = choose|at: int| occurs_at(text@, cr@, at);
                assert(text@.subrange(at, at + 1)[0] == text@[at]);
            } else {
                assert forall|at: int| 0 <= at < text@.len() implies text@[at] != '\r' by {
                    if text@[at] == '\r' {
                        assert(text@.subrange(at, at + 1) =~= cr@);
                        assert(occurs_at(text@, cr@, at));
                    }
                }
            }
        }
        let contents = document_lines(text, crlf);
        Editor { filename: Some(filename), crlf, terminal, contents, curr_line: 0 }
    }

    /// Replaces the document by the text of the file `filename`; lines are
    /// separated by a line feed where the text holds one, else by a carriage
    /// return and a line feed.
    pub fn open_text(&mut self, filename: String, text: &Vec<char>)
        requires
            old(self).wf(),
            text@.len() < u32::MAX,
        ensures
            final(self).wf(),
            final(self).uses_crlf() == !text@.contains('\n'),
            is_split(final(self).lines(), text@, newline(final(self).uses_crlf())),
            final(self).current() == 0,
            final(self).file_name() == Some(filename),
            final(self).history() == old(self).history(),
    {
        let lf: Vec<char> = vec!['\n'];
        let has_lf = contains_chars(text, &lf);
        proof {
            if has_lf {
                let at = choose|at: int| occurs_at(text@, lf@, at);
                assert(text@.subrange(at, at + 1)[0] == text@[at]);
            } else {
                assert forall|at: int| 0 <= at < text@.len() implies text@[at] != '\n' by {
                    if text@[at] == '\n' {
                        assert(text@.subrange(at, at + 1) =~= lf@);
                        assert(occurs_at(text@, lf@, at));
                    }
                }
            }
        }
        let crlf = !has_lf;
        let contents = document_lines(text, crlf);
        self.filename = Some(filename);
        self.crlf = crlf;
        self.contents = contents;
        self.curr_line = 0;
    }

    /// The text of the document as it is saved: its lines joined by the
    /// separator.
    pub fn document_text(&self) -> (r: Vec<char>)
        ensures
            r@ == join_with(self.lines(), newline(self.uses_crlf())),
    {
        let mut r: Vec<char> = Vec::new();
        let n = self.contents.len();
        let mut i: usize = 0;
        while i < n
            invariant
                n == self.contents@.len(),
                i <= n,
                r@ == join_with(self.lines().subrange(0, i as int), newline(self.crlf)),
            decreases n - i,
        {
            let ghost prev = self.lines().subrange(0, i as int);
            if i > 0 {
                if self.crlf {
                    r.push('\r');
                }
                r.push('\n');
            }
            push_all(&mut r, &self.contents[i]);
            proof {
                let next = self.lines().subrange(0, i + 1);
                assert(next.drop_last() =~= prev);
                assert(next.last() == self.contents@[i as int]@);
                if i == 0 {
                    assert(r@ =~= join_with(next, newline(self.crlf)));
                } else {
                    assert(r@ =~= join_with(prev, newline(self.crlf)) + newline(self.crlf)
                        + next.last());
                }
            }
            i = i + 1;
        }
        assert(self.lines().subrange(0, n as int) =~= self.lines());
        r
    }

    /// Sets the file the document is saved to.
    pub fn set_file_name(&mut self, filename: String)
        requires
            old(self).wf(),
        ensures
            final(self).wf(),
            final(self).file_name() == Some(filename),
            final(self).lines() == old(self).lines(),
            final(self).current() == old(self).current(),
            final(self).uses_crlf() == old(self).uses_crlf(),
            final(self).history() == old(self).history(),
    {
        self.filename = Some(filename);
    }

    /// The file the document is saved to, if any.
    pub fn file_name_ref(&self) -> (r: &Option<String>)
        ensures
            *r == self.file_name(),
    {
        &self.filename
    }

    /// Whether lines are separated by a carriage return and a line feed.
    pub fn is_crlf(&self) -> (r: bool)
        ensures
            r == self.uses_crlf(),
    {
        self.crlf
    }

    /// The index of the current line.
    pub fn current_line(&self) -> (r: u32)
        ensures
            r == self.current(),
    {
        self.curr_line
    }

    /// Number of lines.
    pub fn line_count(&self) -> (r: usize)
        ensures
            r == self.lines().len(),
    {
        self.contents.len()
    }

    /// The line at index `i`.
    pub fn line(&self, i: usize) -> (r: &Vec<char>)
        requires
            i < self.lines().len(),
        ensures
            r@ == self.lines()[i as int],
    {
        &self.contents[i]
    }

    /// Makes `line` current, or the last line where the document is
    /// shorter; an empty document keeps line 0.
    pub fn set_current_line(&mut self, line: u32)
        requires
            old(self).wf(),
        ensures
            final(self).wf(),
            final(self).lines() == old(self).lines(),
            final(self).history() == old(self).history(),
            final(self).current() == if old(self).lines().len() == 0 {
                0
            } else if line < old(self).lines().len() {
                line as int
            } else {
                old(self).lines().len() - 1
            },
            final(self).file_name() == old(self).file_name(),
            final(self).uses_crlf() == old(self).uses_crlf(),
    {
        let n = self.contents.len();
        if n == 0 {
            self.curr_line = 0;
        } else if (line as usize) < n {
            self.curr_line = line;
        } else {
            self.curr_line = (n - 1) as u32;
        }
    }

    /// Removes the current line; the line before it becomes current, or line
    /// 0 when the first line went. Returns whether a line was removed.
    pub fn delete_line(&mut self) -> (removed: bool)
        requires
            old(self).wf(),
        ensures
            final(self).wf(),
            removed == (old(self).current() < old(self).lines().len()),
            removed ==> final(self).lines() == old(self).lines().remove(
                old(self).current() as int,
            ),
            !removed ==> final(self).lines() == old(self).lines(),
            final(self).current() == if removed && old(self).current() > 0 {
                old(self).current() - 1
            } else {
                old(self).current() as int
            },
            final(self).history() == old(self).history(),
            final(self).file_name() == old(self).file_name(),
            final(self).uses_crlf() == old(self).uses_crlf(),
    {
        if (self.curr_line as usize) >= self.contents.len() {
            return false;
        }
        let ghost before = self.contents@;
        self.contents.remove(self.curr_line as usize);
        assert(self.lines() =~= old(self).lines().remove(old(self).current() as int));
        if self.curr_line > 0 {
            self.curr_line = self.curr_line - 1;
        }
        true
    }

    /// Inserts `line` below the current line and makes it current; in an
    /// empty document it becomes the only line.
    pub fn insert_down(&mut self, line: Vec<char>)
        requires
            old(self).wf(),
            old(self).lines().len() < u32::MAX,
        ensures
            final(self).wf(),
            final(self).lines() == if old(self).lines().len() == 0 {
                seq![line@]
            } else {
                old(self).lines().insert(
                    (if old(self).current() < old(self).lines().len() {
                        old(self).current() + 1 as int
                    } else {
                        old(self).lines().len() as int
                    }),
                    line@,
                )
            },
            final(self).current() == if old(self).lines().len() == 0 {
                0
            } else if old(self).current() < old(self).lines().len() {
                old(self).current() + 1 as int
            } else {
                old(self).lines().len() as int
            },
            final(self).history() == old(self).history(),
            final(self).file_name() == old(self).file_name(),
            final(self).uses_crlf() == old(self).uses_crlf(),
    {
        let ghost l = line@;
        let n = self.contents.len();
        let at: usize = if n == 0 {
            0
        } else if (self.curr_line as usize) < n {
            self.curr_line as usize + 1
        } else {
            n
        };
        self.contents.insert(at, line);
        self.curr_line = at as u32;
        if n == 0 {
            assert(self.lines() =~= seq![l]);
        } else {
            assert(self.lines() =~= old(self).lines().insert(at as int, l));
        }
    }

    /// Inserts `line` above the current line, which it becomes.
    pub fn insert_up(&mut self, line: Vec<char>)
        requires
            old(self).wf(),
            old(self).lines().len() < u32::MAX,
        ensures
            final(self).wf(),
            final(self).lines() == old(self).lines().insert(
                (if old(self).current() <= old(self).lines().len() {
                    old(self).current() as int
                } else {
                    old(self).lines().len() as int
                }),
                line@,
            ),
            final(self).current() == if old(self).current() <= old(self).lines().len() {
                old(self).current() as int
            } else {
                old(self).lines().len() as int
            },
            final(self).history() == old(self).history(),
            final(self).file_name() == old(self).file_name(),
            final(self).uses_crlf() == old(self).uses_crlf(),
    {
        let ghost l = line@;
        let n = self.contents.len();
        let at: usize = if (self.curr_line as usize) <= n {
            self.curr_line as usize
        } else {
            n
        };
        self.contents.insert(at, line);
        self.curr_line = at as u32;
        assert(self.lines() =~= old(self).lines().insert(at as int, l));
    }

    /// Replaces the current line by `line`; without a current line nothing
    /// changes. Returns whether the line was replaced.
    pub fn replace_current(&mut self, line: Vec<char>) -> (replaced: bool)
        requires
            old(self).wf(),
        ensures
            final(self).wf(),
            replaced == (old(self).current() < old(self).lines().len()),
            replaced ==> final(self).lines() == old(self).lines().update(
                old(self).current() as int,
                line@,
            ),
            !replaced ==> final(self).lines() == old(self).lines(),
            final(self).current() == old(self).current(),
            final(self).history() == old(self).history(),
            final(self).file_name() == old(self).file_name(),
            final(self).uses_crlf() == old(self).uses_crlf(),
    {
        if (self.curr_line as usize) >= self.contents.len() {
            return false;
        }
        let ghost l = line@;
        self.contents.set(self.curr_line as usize, line);
        assert(self.lines() =~= old(self).lines().update(old(self).current() as int, l));
        true
    }

    /// Moves to the first line below the current one that contains
    /// `pattern` and returns its index; `None`, with nothing changed, when
    /// no such line exists.
    pub fn find_next(&mut self, pattern: &Vec<char>) -> (r: Option<u32>)
        requires
            old(self).wf(),
        ensures
            final(self).wf(),
            final(self).lines() == old(self).lines(),
            final(self).history() == old(self).history(),
            final(self).file_name() == old(self).file_name(),
            final(self).uses_crlf() == old(self).uses_crlf(),
            r is None ==> final(self).current() == old(self).current() && forall|j: int|
                old(self).current() < j < old(self).lines().len() ==> !contains(
                    old(self).lines()[j],
                    pattern@,
                ),
            r matches Some(j) ==> {
                &&& old(self).current() < j < old(self).lines().len()
                &&& contains(old(self).lines()[j as int], pattern@)
                &&& forall|k: int|
                    old(self).current() < k < j ==> !contains(old(self).lines()[k], pattern@)
                &&& final(self).current() == j
            },
    {
        let n = self.contents.len();
        let mut j: usize = if (self.curr_line as usize) < n {
            self.curr_line as usize + 1
        } else {
            n
        };
        while j < n
            invariant
                *self == *old(self),
                self.wf(),
                n == self.contents@.len(),
                n <= u32::MAX,
                self.curr_line < j || j == n,
                forall|k: int| self.curr_line < k < j && k < n ==> !contains(self.lines()[k], pattern@),
            decreases n - j,
        {
            if contains_chars(&self.contents[j], pattern) {
                self.curr_line = j as u32;
                return Some(j as u32);
            }
            j = j + 1;
        }
        None
    }

    /// Moves to the nearest line above the current one that contains
    /// `pattern` and returns its index; `None`, with nothing changed, when
    /// no such line exists.
    pub fn find_prev(&mut self, pattern: &Vec<char>) -> (r: Option<u32>)
        requires
            old(self).wf(),
        ensures
            final(self).wf(),
            final(self).lines() == old(self).lines(),
            final(self).history() == old(self).history(),
            final(self).file_name() == old(self).file_name(),
            final(self).uses_crlf() == old(self).uses_crlf(),
            r is None ==> final(self).current() == old(self).current() && forall|j: int|
                0 <= j < old(self).current() && j < old(self).lines().len() ==> !contains(
                    old(self).lines()[j],
                    pattern@,
                ),
            r matches Some(j) ==> {
                &&& j < old(self).current()
                &&& contains(old(self).lines()[j as int], pattern@)
                &&& forall|k: int|
                    j < k < old(self).current() && k < old(self).lines().len() ==> !contains(
                        old(self).lines()[k],
                        pattern@,
                    )
                &&& final(self).current() == j
            },
    {
        let n = self.contents.len();
        let mut j: usize = if (self.curr_line as usize) < n {
            self.curr_line as usize
        } else {
            n
        };
        while j > 0
            invariant
                *self == *old(self),
                self.wf(),
                n == self.contents@.len(),
                j <= self.curr_line,
                j <= n,
                forall|k: int|
                    j <= k < self.curr_line && k < n ==> !contains(self.lines()[k], pattern@),
            decreases j,
        {
            let i = j - 1;
            if contains_chars(&self.contents[i], pattern) {
                self.curr_line = i as u32;
                return Some(i as u32);
            }
            j = i;
        }
        None
    }

    /// The indices of the lines to show around `line_num`: up to `context`
    /// lines before it, the line itself, and up to `context` lines after it,
    /// within the document. Empty when `line_num` is past the end.
    pub fn context_lines(&self, line_num: u32, context: u32) -> (r: Vec<u32>)
        requires
            self.wf(),
        ensures
            line_num >= self.lines().len() ==> r@.len() == 0,
            line_num < self.lines().len() ==> {
                let first = if line_num >= context {
                    line_num - context
                } else {
                    0
                };
                let last = if line_num + context < self.lines().len() {
                    line_num + context
                } else {
                    self.lines().len() - 1
                };
                &&& r@.len() == last - first + 1
                &&& forall|i: int| 0 <= i < r@.len() ==> r@[i] == first + i
            },
    {
        let n = self.contents.len();
        let mut r: Vec<u32> = Vec::new();
        if (line_num as usize) >= n {
            return r;
        }
        let first: u32 = if line_num >= context {
            line_num - context
        } else {
            0
        };
        let last: u32 = if (line_num as u64) + (context as u64) < n as u64 {
            line_num + context
        } else {
            (n - 1) as u32
        };
        let mut i: u32 = first;
        while i <= last
            invariant
                first <= line_num <= last,
                (last as int) < n,
                n <= u32::MAX,
                first <= i <= last + 1,
                r@.len() == i - first,
                forall|k: int| 0 <= k < r@.len() ==> r@[k] == first + k,
            decreases last + 1 - i,
        {
            r.push(i);
            i = i + 1;
        }
        r
    }

    /// Starts reading a fresh line with history navigation on.
    pub fn start_readline(&mut self, prompt: Vec<char>) -> (r: (EditSession, Vec<char>))
        requires
            old(self).wf(),
        ensures
            final(self).wf(),
            final(self).lines() == old(self).lines(),
            final(self).current() == old(self).current(),
            final(self).file_name() == old(self).file_name(),
            final(self).uses_crlf() == old(self).uses_crlf(),
            final(self).history() == (old(self).history().0, old(self).history().0.len()),
            r.0.wf(),
            r.0.prompt() == prompt@,
            r.0.line() == (Seq::<char>::empty(), 0nat),
            r.0.history_enabled(),
            !r.0.submitted(),
            r.1@ == prompt@,
    {
        self.terminal.start_readline(prompt)
    }

    /// Starts editing the current line in place, or an empty line where
    /// there is no current line.
    pub fn start_edit_current(&self, prompt: Vec<char>) -> (r: (EditSession, Vec<char>))
        requires
            self.wf(),
        ensures
            ({
                let initial = if self.current() < self.lines().len() {
                    self.lines()[self.current() as int]
                } else {
                    Seq::empty()
                };
                &&& r.0.wf()
                &&& r.0.prompt() == prompt@
                &&& r.0.line() == (truncated(initial), truncated(initial).len())
                &&& !r.0.history_enabled()
                &&& !r.0.submitted()
                &&& r.1@ == prompt@ + truncated(initial)
            }),
    {
        if (self.curr_line as usize) < self.contents.len() {
            EditSession::edit_existing(prompt, &self.contents[self.curr_line as usize])
        } else {
            let empty: Vec<char> = Vec::new();
            EditSession::edit_existing(prompt, &empty)
        }
    }

    /// Applies one key to an unfinished session of this editor.
    pub fn handle_key(&mut self, session: &mut EditSession, key: KeyEvent) -> (out: Vec<char>)
        requires
            old(self).wf(),
            old(session).wf(),
            !old(session).submitted(),
        ensures
            final(self).wf(),
            final(self).lines() == old(self).lines(),
            final(self).current() == old(self).current(),
            final(self).file_name() == old(self).file_name(),
            final(self).uses_crlf() == old(self).uses_crlf(),
            final(session).wf(),
            final(session).prompt() == old(session).prompt(),
            final(session).history_enabled() == old(session).history_enabled(),
            final(session).submitted() == (key is Submit),
            (final(session).line(), final(self).history(), out@) == key_step(
                old(session).prompt(),
                old(session).history_enabled(),
                old(session).line(),
                old(self).history(),
                key,
            ),
    {
        self.terminal.handle_key(session, key)
    }
}

} // verus!
