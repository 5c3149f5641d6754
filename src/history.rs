use vstd::prelude::*;

use crate::text::{copy_chars, push_all};

verus! {

/// Most entries kept when a history is loaded from its persisted text.
pub const MAX_HISTORY_ITEMS: usize = 500;

/// The character sequences that the vectors of `v` hold.
pub open spec fn views(v: Seq<Vec<char>>) -> Seq<Seq<char>> {
    Seq::new(v.len(), |i: int| v[i]@)
}

/// No entry holds a line break.
pub open spec fn single_lines(es: Seq<Seq<char>>) -> bool {
    forall|i: int, j: int| 0 <= i < es.len() && 0 <= j < es[i].len() ==> es[i][j] != '\n'
}

/// The persisted text of `es`: each entry followed by a line break.
pub open spec fn join_lines(es: Seq<Seq<char>>) -> Seq<char>
    decreases es.len(),
{
    if es.len() == 0 {
        Seq::empty()
    } else {
        join_lines(es.drop_last()) + es.last() + seq!['\n']
    }
}

/// `text` with a line break added at the end unless it is empty or already
/// ends with one.
pub open spec fn terminated(text: Seq<char>) -> Seq<char> {
    if text.len() == 0 || text.last() == '\n' {
        text
    } else {
        text.push('\n')
    }
}

/// The entries that a persisted text holds, one per line; a last line
/// without a line break counts as an entry.
pub open spec fn lines_of(text: Seq<char>) -> Seq<Seq<char>> {
    choose|es: Seq<Seq<char>>| single_lines(es) && join_lines(es) == terminated(text)
}

/// The most recent `MAX_HISTORY_ITEMS` entries of `es`.
pub open spec fn recent(es: Seq<Seq<char>>) -> Seq<Seq<char>> {
    if es.len() > MAX_HISTORY_ITEMS {
        es.subrange(es.len() - MAX_HISTORY_ITEMS, es.len() as int)
    } else {
        es
    }
}

proof fn lemma_join_len(es: Seq<Seq<char>>)
    ensures
        join_lines(es).len() >= es.len(),
        es.len() > 0 ==> join_lines(es).last() == '\n',
    decreases es.len(),
{
    if es.len() > 0 {
        lemma_join_len(es.drop_last());
    }
}

/// Two lists of single-line entries with the same persisted text are equal.
proof fn lemma_join_injective(a: Seq<Seq<char>>, b: Seq<Seq<char>>)
    requires
        single_lines(a),
        single_lines(b),
        join_lines(a) == join_lines(b),
    ensures
        a == b,
    decreases a.len(),
{
    lemma_join_len(a);
    lemma_join_len(b);
    if a.len() == 0 || b.len() == 0 {
        return;
    }
    let t = join_lines(a);
    let n = t.len();
    let a0 = a.drop_last();
    let b0 = b.drop_last();
    let la = a.last();
    let lb = b.last();
    lemma_join_len(a0);
    lemma_join_len(b0);
    assert(t == join_lines(a0) + la + seq!['\n']);
    assert(t == join_lines(b0) + lb + seq!['\n']);
    assert(la == t.subrange(join_lines(a0).len() as int, n - 1));
    assert(lb == t.subrange(join_lines(b0).len() as int, n - 1));
    if la.len() < lb.len() {
        let k = join_lines(a0).len() - 1;
        // the break that ends the previous entry of `a` falls inside `lb`
        assert(join_lines(a0).len() > 0);
        assert(t[k] == '\n');
        let j = k - join_lines(b0).len();
        assert(lb[j] == t[k]);
        assert(a0.len() > 0);
        assert(b[b.len() - 1][j] != '\n');
        assert(false);
    } else if lb.len() < la.len() {
        let k = join_lines(b0).len() - 1;
        assert(join_lines(b0).len() > 0);
        assert(t[k] == '\n');
        let j = k - join_lines(a0).len();
        assert(la[j] == t[k]);
        assert(a[a.len() - 1][j] != '\n');
        assert(false);
    }
    assert(la =~= lb);
    assert(join_lines(a0) =~= t.subrange(0, join_lines(a0).len() as int));
    assert(join_lines(b0) =~= t.subrange(0, join_lines(b0).len() as int));
    assert(single_lines(a0));
    assert(single_lines(b0));
    lemma_join_injective(a0, b0);
    assert(a =~= a0.push(la));
    assert(b =~= b0.push(lb));
}

/// Reading back the persisted text of single-line entries gives the same
/// entries.
pub proof fn lemma_lines_of_join(es: Seq<Seq<char>>)
    requires
        single_lines(es),
    ensures
        lines_of(join_lines(es)) == es,
{
    lemma_join_len(es);
    assert(terminated(join_lines(es)) == join_lines(es));
    let r = lines_of(join_lines(es));
    assert(single_lines(r) && join_lines(r) == terminated(join_lines(es)));
    lemma_join_injective(r, es);
}

/// Appending entries one at a time to a persisted history and loading it
/// again keeps exactly the most recent `MAX_HISTORY_ITEMS` of them, oldest
/// first.
pub proof fn lemma_reload_keeps_recent(es: Seq<Seq<char>>)
    requires
        single_lines(es),
    ensures
        recent(lines_of(join_lines(es))) == recent(es),
        es.len() > MAX_HISTORY_ITEMS ==> recent(es) == es.subrange(
            es.len() - MAX_HISTORY_ITEMS,
            es.len() as int,
        ),
        es.len() <= MAX_HISTORY_ITEMS ==> recent(es) == es,
{
    lemma_lines_of_join(es);
}

/// The persisted text grows by one line for each appended entry.
pub proof fn lemma_join_push(es: Seq<Seq<char>>, e: Seq<char>)
    ensures
        join_lines(es.push(e)) == join_lines(es) + e + seq!['\n'],
{
    assert(es.push(e).drop_last() =~= es);
}

/// Splits a persisted text into its entries, one per line.
pub fn parse_lines(text: &Vec<char>) -> (r: Vec<Vec<char>>)
    ensures
        views(r@) == lines_of(text@),
{
    let mut r: Vec<Vec<char>> = Vec::new();
    let mut cur: Vec<char> = Vec::new();
    let mut i: usize = 0;
    while i < text.len()
        invariant
            i <= text@.len(),
            single_lines(views(r@)),
            forall|j: int| 0 <= j < cur@.len() ==> cur@[j] != '\n',
            join_lines(views(r@)) + cur@ == text@.subrange(0, i as int),
        decreases text@.len() - i,
    {
        let c = text[i];
        assert(text@.subrange(0, i + 1) =~= text@.subrange(0, i as int).push(c));
        if c == '\n' {
            let ghost old_r = views(r@);
            let line = cur;
            cur = Vec::new();
            r.push(line);
            proof {
                assert(views(r@) =~= old_r.push(line@));
                lemma_join_push(old_r, line@);
            }
        } else {
            let ghost before = cur@;
            cur.push(c);
            assert(join_lines(views(r@)) + cur@ =~= (join_lines(views(r@)) + before).push(c));
        }
        i = i + 1;
        assert(join_lines(views(r@)) + cur@ =~= text@.subrange(0, i as int));
    }
    assert(text@.subrange(0, i as int) =~= text@);
    if cur.len() > 0 {
        let ghost old_r = views(r@);
        let ghost line = cur@;
        r.push(cur);
        proof {
            assert(views(r@) =~= old_r.push(line));
            lemma_join_push(old_r, line);
            assert(text@.last() == line.last());
            assert(terminated(text@) =~= join_lines(views(r@)));
        }
    } else {
        proof {
            lemma_join_len(views(r@));
            assert(join_lines(views(r@)) =~= text@);
        }
    }
    proof {
        let d = views(r@);
        assert(single_lines(d));
        assert(join_lines(d) == terminated(text@));
        lemma_join_injective(d, lines_of(text@));
    }
    r
}

/// The text that persisting one more entry adds: the entry and a line break.
pub fn persisted_line(line: &Vec<char>) -> (r: Vec<char>)
    ensures
        r@ == line@.push('\n'),
        r@ == join_lines(seq![line@]),
{
    let mut r = copy_chars(line);
    r.push('\n');
    proof {
        lemma_join_push(Seq::empty(), line@);
        assert(seq![line@] =~= Seq::<Seq<char>>::empty().push(line@));
        assert(join_lines(Seq::<Seq<char>>::empty()) + line@ + seq!['\n'] =~= line@.push('\n'));
    }
    r
}

/// The persisted text of `es`: each entry followed by a line break.
pub fn join_entries(es: &Vec<Vec<char>>) -> (r: Vec<char>)
    ensures
        r@ == join_lines(views(es@)),
{
    let mut r: Vec<char> = Vec::new();
    let mut i: usize = 0;
    while i < es.len()
        invariant
            i <= es@.len(),
            r@ == join_lines(views(es@).subrange(0, i as int)),
        decreases es@.len() - i,
    {
        push_all(&mut r, &es[i]);
        r.push('\n');
        proof {
            let d = views(es@);
            assert(d.subrange(0, i + 1) =~= d.subrange(0, i as int).push(es@[i as int]@));
            lemma_join_push(d.subrange(0, i as int), es@[i as int]@);
        }
        i = i + 1;
    }
    assert(views(es@).subrange(0, i as int) =~= views(es@));
    r
}

/// The outcome of moving forward through the history.
pub enum NextEntry {
    /// A later entry was selected.
    Entry(Vec<char>),
    /// No entry is selected any more: the line starts afresh.
    Fresh,
}

/// Previously submitted lines, oldest first, with a navigation index in
/// `[0, size]`, where `size` means that no entry is selected.
pub struct HistoryStore {
    entries: Vec<Vec<char>>,
    index: usize,
}

impl HistoryStore {
    /// The navigation index never passes the end of the entries.
    pub closed spec fn wf(&self) -> bool {
        self.index <= self.entries@.len()
    }

    /// The entries, oldest first.
    pub closed spec fn entries(&self) -> Seq<Seq<char>> {
        views(self.entries@)
    }

    /// The navigation index.
    pub closed spec fn index(&self) -> nat {
        self.index as nat
    }

    /// Every well-formed history keeps its index within `[0, size]`.
    pub proof fn lemma_bounds(&self)
        requires
            self.wf(),
        ensures
            self.index() <= self.entries().len(),
    {
    }

    /// An empty history.
    pub fn new() -> (r: HistoryStore)
        ensures
            r.wf(),
            r.entries() == Seq::<Seq<char>>::empty(),
            r.index() == 0,
    {
        let r = HistoryStore { entries: Vec::new(), index: 0 };
        assert(r.entries() =~= Seq::<Seq<char>>::empty());
        r
    }

    /// A history holding the most recent `MAX_HISTORY_ITEMS` lines of a
    /// persisted text, with no entry selected. The flag says whether older
    /// lines were dropped, so that the persisted text must be rewritten.
    pub fn load(text: &Vec<char>) -> (r: (HistoryStore, bool))
        ensures
            r.0.wf(),
            r.0.entries() == recent(lines_of(text@)),
            r.0.index() == r.0.entries().len(),
            r.1 == (lines_of(text@).len() > MAX_HISTORY_ITEMS),
    {
        let all = parse_lines(text);
        let n = all.len();
        let start: usize = if n > MAX_HISTORY_ITEMS {
            n - MAX_HISTORY_ITEMS
        } else {
            0
        };
        let mut entries: Vec<Vec<char>> = Vec::new();
        let mut i: usize = start;
        while i < n
            invariant
                n == all@.len(),
                start <= i <= n,
                views(entries@) == views(all@).subrange(start as int, i as int),
            decreases n - i,
        {
            let line = copy_chars(&all[i]);
            let ghost prev = entries@;
            entries.push(line);
            assert(views(entries@) =~= views(prev).push(views(all@)[i as int]));
            i = i + 1;
            assert(views(entries@) =~= views(all@).subrange(start as int, i as int));
        }
        assert(views(all@).subrange(start as int, n as int) =~= recent(views(all@)));
        let size = entries.len();
        (HistoryStore { entries, index: size }, n > MAX_HISTORY_ITEMS)
    }

    /// The persisted text of the whole history.
    pub fn to_text(&self) -> (r: Vec<char>)
        ensures
            r@ == join_lines(self.entries()),
    {
        join_entries(&self.entries)
    }

    /// Number of entries.
    pub fn len(&self) -> (r: usize)
        ensures
            r == self.entries().len(),
    {
        self.entries.len()
    }

    /// Adds `line` as the newest entry and deselects any entry.
    pub fn append(&mut self, line: Vec<char>)
        requires
            old(self).wf(),
        ensures
            final(self).wf(),
            final(self).entries() == old(self).entries().push(line@),
            final(self).index() == final(self).entries().len(),
    {
        self.entries.push(line);
        self.index = self.entries.len();
        assert(self.entries() =~= old(self).entries().push(line@));
    }

    /// Deselects any entry.
    pub fn reset_navigation(&mut self)
        requires
            old(self).wf(),
        ensures
            final(self).wf(),
            final(self).entries() == old(self).entries(),
            final(self).index() == final(self).entries().len(),
    {
        self.index = self.entries.len();
    }

    /// Selects the previous entry and returns it; at the oldest entry nothing
    /// changes and `None` comes back.
    pub fn navigate_prev(&mut self) -> (r: Option<Vec<char>>)
        requires
            old(self).wf(),
        ensures
            final(self).wf(),
            final(self).entries() == old(self).entries(),
            old(self).index() == 0 ==> r.is_none() && final(self).index() == 0,
            old(self).index() > 0 ==> r.is_some() && final(self).index() == old(self).index() - 1
                && r.unwrap()@ == old(self).entries()[final(self).index() as int],
    {
        if self.index == 0 {
            return None;
        }
        self.index = self.index - 1;
        Some(copy_chars(&self.entries[self.index]))
    }

    /// Selects the next entry and returns it; past the newest entry no entry
    /// is selected and the line starts afresh.
    pub fn navigate_next(&mut self) -> (r: NextEntry)
        requires
            old(self).wf(),
        ensures
            final(self).wf(),
            final(self).entries() == old(self).entries(),
            old(self).index() + 1 < old(self).entries().len() ==> {
                &&& final(self).index() == old(self).index() + 1
                &&& r matches NextEntry::Entry(e)
                &&& e@ == old(self).entries()[final(self).index() as int]
            },
            old(self).index() + 1 >= old(self).entries().len() ==> {
                &&& final(self).index() == old(self).entries().len()
                &&& r is Fresh
            },
    {
        if self.entries.len() - self.index > 1 {
            self.index = self.index + 1;
            NextEntry::Entry(copy_chars(&self.entries[self.index]))
        } else {
            self.index = self.entries.len();
            NextEntry::Fresh
        }
    }
}

} // verus!
