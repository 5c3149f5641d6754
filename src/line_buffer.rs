use vstd::prelude::*;

verus! {

/// Number of character slots in a line buffer.
pub const CAPACITY: usize = 1024;

/// A bounded, mutable character store: a fixed array of `CAPACITY` slots,
/// of which the first `len` hold the line, with an insertion point `cursor`.
pub struct LineBuffer {
    data: Vec<char>,
    len: usize,
    cursor: usize,
}

impl LineBuffer {
    /// The slots stay allocated at full capacity; `0 <= cursor <= len <= CAPACITY`.
    pub closed spec fn wf(&self) -> bool {
        &&& self.data@.len() == CAPACITY
        &&& self.len <= CAPACITY
        &&& self.cursor <= self.len
    }

    /// The characters of the line.
    pub closed spec fn content(&self) -> Seq<char> {
        self.data@.subrange(0, self.len as int)
    }

    /// The insertion point within the line.
    pub closed spec fn cursor(&self) -> nat {
        self.cursor as nat
    }

    /// Every well-formed buffer keeps its cursor within the line and the line
    /// within capacity.
    pub proof fn lemma_bounds(&self)
        requires
            self.wf(),
        ensures
            0 <= self.cursor() <= self.content().len() <= CAPACITY,
    {
    }

    /// An empty buffer with the cursor at 0.
    pub fn new() -> (r: LineBuffer)
        ensures
            r.wf(),
            r.content() == Seq::<char>::empty(),
            r.cursor() == 0,
    {
        let data = vec!['\0'; CAPACITY];
        let r = LineBuffer { data, len: 0, cursor: 0 };
        assert(r.content() =~= Seq::<char>::empty());
        r
    }

    /// Number of characters in the line.
    pub fn len(&self) -> (r: usize)
        requires
            self.wf(),
        ensures
            r == self.content().len(),
    {
        self.len
    }

    /// The insertion point.
    pub fn cursor_pos(&self) -> (r: usize)
        requires
            self.wf(),
        ensures
            r == self.cursor(),
    {
        self.cursor
    }

    /// The character at position `i` of the line.
    pub fn char_at(&self, i: usize) -> (r: char)
        requires
            self.wf(),
            i < self.content().len(),
        ensures
            r == self.content()[i as int],
    {
        self.data[i]
    }

    /// Inserts `ch` at the cursor and advances the cursor past it; at full
    /// capacity the character is dropped and nothing changes. Returns whether
    /// the character was stored.
    pub fn insert(&mut self, ch: char) -> (stored: bool)
        requires
            old(self).wf(),
        ensures
            final(self).wf(),
            stored == (old(self).content().len() < CAPACITY),
            stored ==> final(self).content() == old(self).content().insert(
                old(self).cursor() as int,
                ch,
            ),
            stored ==> final(self).cursor() == old(self).cursor() + 1,
            !stored ==> final(self).content() == old(self).content(),
            !stored ==> final(self).cursor() == old(self).cursor(),
    {
        if self.len == CAPACITY {
            return false;
        }
        let ghost before = self.data@;
        let mut i: usize = self.len;
        while i > self.cursor
            invariant
                self.cursor <= i <= self.len < CAPACITY,
                self.data@.len() == CAPACITY,
                before.len() == CAPACITY,
                before == old(self).data@,
                self.len == old(self).len,
                self.cursor == old(self).cursor,
                forall|j: int| 0 <= j <= i ==> self.data@[j] == before[j],
                forall|j: int| i < j <= self.len ==> self.data@[j] == before[j - 1],
                forall|j: int| self.len < j < CAPACITY ==> self.data@[j] == before[j],
            decreases i,
        {
            let prev = self.data[i - 1];
            self.data.set(i, prev);
            i = i - 1;
        }
        self.data.set(self.cursor, ch);
        self.len = self.len + 1;
        self.cursor = self.cursor + 1;
        assert(self.content() =~= old(self).content().insert(old(self).cursor() as int, ch));
        true
    }

    /// Removes the character at `at`, shifting the rest of the line left.
    fn remove_at(&mut self, at: usize)
        requires
            old(self).wf(),
            at < old(self).len,
        ensures
            final(self).data@.len() == CAPACITY,
            final(self).len == old(self).len - 1,
            final(self).cursor == old(self).cursor,
            final(self).content() == old(self).content().remove(at as int),
    {
        let ghost before = self.data@;
        let mut i: usize = at;
        while i + 1 < self.len
            invariant
                at <= i < self.len <= CAPACITY,
                self.data@.len() == CAPACITY,
                self.len == old(self).len,
                self.cursor == old(self).cursor,
                before == old(self).data@,
                forall|j: int| 0 <= j < at ==> self.data@[j] == before[j],
                forall|j: int| at <= j < i ==> self.data@[j] == before[j + 1],
                forall|j: int| i <= j < self.len ==> self.data@[j] == before[j],
            decreases self.len - i,
        {
            let next = self.data[i + 1];
            self.data.set(i, next);
            i = i + 1;
        }
        self.len = self.len - 1;
        assert(self.content() =~= old(self).content().remove(at as int));
    }

    /// Removes the character before the cursor and moves the cursor back by
    /// one; at the start of the line nothing changes. Returns whether a
    /// character was removed.
    pub fn backspace(&mut self) -> (removed: bool)
        requires
            old(self).wf(),
        ensures
            final(self).wf(),
            removed == (old(self).cursor() > 0),
            removed ==> final(self).content() == old(self).content().remove(
                old(self).cursor() - 1,
            ),
            removed ==> final(self).cursor() == old(self).cursor() - 1,
            !removed ==> final(self).content() == old(self).content(),
            !removed ==> final(self).cursor() == old(self).cursor(),
    {
        if self.cursor == 0 {
            return false;
        }
        let at = self.cursor - 1;
        self.remove_at(at);
        self.cursor = at;
        true
    }

    /// Removes the character at the cursor; the cursor stays. At the end of
    /// the line nothing changes. Returns whether a character was removed.
    pub fn delete_forward(&mut self) -> (removed: bool)
        requires
            old(self).wf(),
        ensures
            final(self).wf(),
            removed == (old(self).cursor() < old(self).content().len()),
            removed ==> final(self).content() == old(self).content().remove(
                old(self).cursor() as int,
            ),
            final(self).cursor() == old(self).cursor(),
            !removed ==> final(self).content() == old(self).content(),
    {
        if self.cursor == self.len {
            return false;
        }
        let at = self.cursor;
        self.remove_at(at);
        true
    }

    /// Moves the cursor one place left, unless it is at the start.
    pub fn move_left(&mut self) -> (moved: bool)
        requires
            old(self).wf(),
        ensures
            final(self).wf(),
            final(self).content() == old(self).content(),
            moved == (old(self).cursor() > 0),
            final(self).cursor() == if moved {
                old(self).cursor() - 1
            } else {
                old(self).cursor() as int
            },
    {
        if self.cursor > 0 {
            self.cursor = self.cursor - 1;
            true
        } else {
            false
        }
    }

    /// Moves the cursor one place right, unless it is at the end.
    pub fn move_right(&mut self) -> (moved: bool)
        requires
            old(self).wf(),
        ensures
            final(self).wf(),
            final(self).content() == old(self).content(),
            moved == (old(self).cursor() < old(self).content().len()),
            final(self).cursor() == if moved {
                old(self).cursor() + 1 as int
            } else {
                old(self).cursor() as int
            },
    {
        if self.cursor < self.len {
            self.cursor = self.cursor + 1;
            true
        } else {
            false
        }
    }

    /// Moves the cursor to the start of the line.
    pub fn move_home(&mut self)
        requires
            old(self).wf(),
        ensures
            final(self).wf(),
            final(self).content() == old(self).content(),
            final(self).cursor() == 0,
    {
        self.cursor = 0;
    }

    /// Moves the cursor to the end of the line.
    pub fn move_end(&mut self)
        requires
            old(self).wf(),
        ensures
            final(self).wf(),
            final(self).content() == old(self).content(),
            final(self).cursor() == final(self).content().len(),
    {
        self.cursor = self.len;
    }

    /// Empties the line.
    pub fn clear(&mut self)
        requires
            old(self).wf(),
        ensures
            final(self).wf(),
            final(self).content() == Seq::<char>::empty(),
            final(self).cursor() == 0,
    {
        self.len = 0;
        self.cursor = 0;
        assert(self.content() =~= Seq::<char>::empty());
    }

    /// Replaces the line by `text`, cut to capacity, with the cursor at its end.
    pub fn replace_all(&mut self, text: &Vec<char>)
        requires
            old(self).wf(),
        ensures
            final(self).wf(),
            final(self).content() == truncated(text@),
            final(self).cursor() == final(self).content().len(),
    {
        let n: usize = if text.len() < CAPACITY {
            text.len()
        } else {
            CAPACITY
        };
        let mut i: usize = 0;
        while i < n
            invariant
                n <= CAPACITY,
                n <= text@.len(),
                n == truncated(text@).len(),
                i <= n,
                self.data@.len() == CAPACITY,
                forall|j: int| 0 <= j < i ==> self.data@[j] == text@[j],
            decreases n - i,
        {
            self.data.set(i, text[i]);
            i = i + 1;
        }
        self.len = n;
        self.cursor = n;
        assert(self.content() =~= truncated(text@));
    }

    /// The line as a vector of characters.
    pub fn to_vec(&self) -> (r: Vec<char>)
        requires
            self.wf(),
        ensures
            r@ == self.content(),
    {
        let mut r: Vec<char> = Vec::new();
        let mut i: usize = 0;
        while i < self.len
            invariant
                self.wf(),
                i <= self.len,
                r@ == self.data@.subrange(0, i as int),
            decreases self.len - i,
        {
            r.push(self.data[i]);
            i = i + 1;
            assert(r@ =~= self.data@.subrange(0, i as int));
        }
        r
    }
}

/// `text` cut to at most `CAPACITY` characters.
pub open spec fn truncated(text: Seq<char>) -> Seq<char> {
    if text.len() <= CAPACITY {
        text
    } else {
        text.subrange(0, CAPACITY as int)
    }
}

} // verus!
