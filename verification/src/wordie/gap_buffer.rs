//! A gap buffer: the text lives in one array with a movable hole (the gap) at
//! the cursor, so typing and deleting at the cursor never shifts the text.
use vstd::prelude::*;

verus! {

/// The largest number of `char` slots a buffer may have: a `Vec<char>` cannot
/// hold more than `isize::MAX` bytes.
pub open spec fn max_slots() -> nat {
    (isize::MAX as nat) / 4
}

/// The text of a buffer, split at the cursor.
pub struct EditState {
    pub before: Seq<char>,
    pub after: Seq<char>,
}

impl EditState {
    /// The whole text, gap removed.
    pub open spec fn content(self) -> Seq<char> {
        self.before + self.after
    }

    /// The cursor, counted in characters from the start of the text.
    pub open spec fn cursor(self) -> nat {
        self.before.len()
    }

    /// The same text with the cursor at offset `k`.
    pub open spec fn moved_to(self, k: nat) -> EditState {
        EditState { before: self.content().take(k as int), after: self.content().skip(k as int) }
    }

    /// `s` typed at the cursor: it lands before the cursor.
    pub open spec fn insert(self, s: Seq<char>) -> EditState {
        EditState { before: self.before + s, after: self.after }
    }

    /// The character right of the cursor removed, if there is one.
    pub open spec fn delete(self) -> EditState {
        if self.after.len() > 0 {
            EditState { before: self.before, after: self.after.drop_first() }
        } else {
            self
        }
    }

    /// The character left of the cursor removed, if there is one.
    pub open spec fn backspace(self) -> EditState {
        if self.before.len() > 0 {
            EditState { before: self.before.drop_last(), after: self.after }
        } else {
            self
        }
    }

    /// The cursor one character to the left, if it is not at the start.
    pub open spec fn left(self) -> EditState {
        if self.before.len() > 0 {
            EditState {
                before: self.before.drop_last(),
                after: seq![self.before.last()] + self.after,
            }
        } else {
            self
        }
    }

    /// The cursor one character to the right, if it is not at the end.
    pub open spec fn right(self) -> EditState {
        if self.after.len() > 0 {
            EditState {
                before: self.before.push(self.after[0]),
                after: self.after.drop_first(),
            }
        } else {
            self
        }
    }
}

/// Moving the cursor never changes the text.
pub proof fn law_moves_keep_text(s: EditState)
    ensures
        s.left().content() == s.content(),
        s.right().content() == s.content(),
        s.moved_to(s.cursor()) == s,
{
    if s.before.len() > 0 {
        assert(s.left().content() =~= s.content());
    }
    if s.after.len() > 0 {
        assert(s.right().content() =~= s.content());
    }
    assert(s.content().take(s.cursor() as int) =~= s.before);
    assert(s.content().skip(s.cursor() as int) =~= s.after);
}

/// Backspace right after typing a character removes exactly that character.
pub proof fn law_backspace_undoes_insert(s: EditState, c: char)
    ensures
        s.insert(seq![c]).backspace() == s,
{
    assert((s.before + seq![c]).drop_last() =~= s.before);
}

/// Delete right after moving left removes the character the cursor passed,
/// as backspace does, when the cursor is not at the start.
pub proof fn law_delete_after_left_is_backspace(s: EditState)
    requires
        s.before.len() > 0,
    ensures
        s.left().delete() == s.backspace(),
{
    let l = s.left();
    assert(l.after.drop_first() =~= s.after);
}

/// Moving right undoes moving left, unless the cursor was at the start.
pub proof fn law_right_undoes_left(s: EditState)
    requires
        s.before.len() > 0,
    ensures
        s.left().right() == s,
{
    let l = s.left();
    assert(l.after[0] == s.before.last());
    assert(l.before.push(l.after[0]) =~= s.before);
    assert(l.after.drop_first() =~= s.after);
}

/// Typing two strings one after the other is typing their concatenation.
pub proof fn law_insert_concat(s: EditState, a: Seq<char>, b: Seq<char>)
    ensures
        s.insert(a).insert(b) == s.insert(a + b),
{
    assert(s.before + a + b =~= s.before + (a + b));
}

/// Typing puts the typed characters into the text at the cursor and moves the
/// cursor past them.
pub proof fn law_insert_content(s: EditState, a: Seq<char>)
    ensures
        s.insert(a).content() == s.before + a + s.after,
        s.insert(a).cursor() == s.cursor() + a.len(),
{
}

/// An editing call on a buffer.
pub enum EditCall {
    Insert(Seq<char>),
    Delete,
    Backspace,
    Left,
    Right,
}

impl EditState {
    /// The state after call `c`.
    pub open spec fn after_edit(self, c: EditCall) -> EditState {
        match c {
            EditCall::Insert(t) => self.insert(t),
            EditCall::Delete => self.delete(),
            EditCall::Backspace => self.backspace(),
            EditCall::Left => self.left(),
            EditCall::Right => self.right(),
        }
    }

    /// The state after the calls `calls`, in turn.
    pub open spec fn after_edits(self, calls: Seq<EditCall>) -> EditState
        decreases calls.len(),
    {
        if calls.len() == 0 {
            self
        } else {
            self.after_edit(calls[0]).after_edits(calls.drop_first())
        }
    }

    /// The characters the calls type less those they delete (a delete or a
    /// backspace that finds a character).
    pub open spec fn net_typed(self, calls: Seq<EditCall>) -> int
        decreases calls.len(),
    {
        if calls.len() == 0 {
            0
        } else {
            let d: int = match calls[0] {
                EditCall::Insert(t) => t.len() as int,
                EditCall::Delete => if self.after.len() > 0 { -1 } else { 0 },
                EditCall::Backspace => if self.before.len() > 0 { -1 } else { 0 },
                _ => 0,
            };
            d + self.after_edit(calls[0]).net_typed(calls.drop_first())
        }
    }
}

/// Over any sequence of editing calls, the length of the text changes by the
/// characters typed less those deleted, and the cursor stays within the
/// text.
pub proof fn law_len_counts_edits(s: EditState, calls: Seq<EditCall>)
    ensures
        s.after_edits(calls).content().len() == s.content().len() + s.net_typed(calls),
        s.after_edits(calls).cursor() <= s.after_edits(calls).content().len(),
    decreases calls.len(),
{
    if calls.len() > 0 {
        law_len_counts_edits(s.after_edit(calls[0]), calls.drop_first());
    }
}

/// The number of slots an array of `capacity` slots holding `text_len`
/// characters grows by when it needs `need` free slots and has fewer:
/// `need`, the text's length or 16, whichever is largest.
pub open spec fn growth(text_len: nat, need: nat) -> nat {
    if need >= text_len && need >= 16 {
        need
    } else if text_len >= 16 {
        text_len
    } else {
        16
    }
}

/// The number of slots after making room for `need` free slots in an array
/// of `capacity` slots holding `text_len` characters.
pub open spec fn slots_after_reserve(capacity: nat, text_len: nat, need: nat) -> nat {
    if capacity - text_len >= need {
        capacity
    } else {
        capacity + growth(text_len, need)
    }
}

/// Making room for `need` free slots keeps the array within its limit.
pub open spec fn reserve_fits(capacity: nat, text_len: nat, need: nat) -> bool {
    capacity - text_len >= need || capacity + growth(text_len, need) <= max_slots()
}

/// A text held in a gap buffer.
#[derive(Debug, Clone)]
pub struct GapBuffer {
    buf: Vec<char>,
    gap_start: usize,
    gap_end: usize,
}

impl View for GapBuffer {
    type V = EditState;

    closed spec fn view(&self) -> EditState {
        EditState {
            before: self.buf@.take(self.gap_start as int),
            after: self.buf@.skip(self.gap_end as int),
        }
    }
}

impl GapBuffer {
    /// The buffer's layout is consistent: the gap lies inside the array.
    pub closed spec fn wf(&self) -> bool {
        &&& self.gap_start <= self.gap_end <= self.buf.len()
        &&& self.buf.len() <= max_slots()
    }

    /// The number of slots of the array, text and gap together.
    pub closed spec fn capacity(&self) -> nat {
        self.buf.len() as nat
    }

    /// The number of free slots in the gap.
    pub closed spec fn gap_len(&self) -> nat {
        (self.gap_end - self.gap_start) as nat
    }

    /// The number of free slots: the slots the text does not use.
    pub open spec fn free_slots(&self) -> int {
        self.capacity() - self@.content().len()
    }

    /// The number of slots after making room for `need` characters.
    pub open spec fn capacity_for(&self, need: nat) -> nat {
        slots_after_reserve(self.capacity(), self@.content().len(), need)
    }

    /// Making room for `need` characters keeps the array within its limit.
    pub open spec fn can_reserve(&self, need: nat) -> bool {
        reserve_fits(self.capacity(), self@.content().len(), need)
    }

    /// The free slots are the gap.
    pub proof fn lemma_free_slots(&self)
        requires
            self.wf(),
        ensures
            self.free_slots() == self.gap_len(),
            self@.content().len() <= self.capacity(),
    {
    }

    /// The text is shorter than the largest `usize`.
    pub proof fn lemma_len_bound(&self)
        requires
            self.wf(),
        ensures
            self@.content().len() <= max_slots(),
            max_slots() < usize::MAX,
    {
    }

    /// An empty buffer with a gap of `capacity` slots (at least 8).
    pub fn with_capacity(capacity: usize) -> (gb: Self)
        requires
            capacity <= max_slots(),
        ensures
            gb.wf(),
            gb@.before == Seq::<char>::empty(),
            gb@.after == Seq::<char>::empty(),
            gb.capacity() == if capacity < 8 { 8 } else { capacity },
    {
        let size: usize = if capacity < 8 { 8 } else { capacity };
        let buf = vec!['\0'; size];
        let len = buf.len();
        let gb = GapBuffer { buf, gap_start: 0, gap_end: len };
        assert(gb@.before =~= Seq::<char>::empty());
        assert(gb@.after =~= Seq::<char>::empty());
        gb
    }

    /// A buffer holding `s` with the cursor at its end and a gap of
    /// `extra_gap` slots (at least 8).
    pub fn from_str_with_capacity(s: &str, extra_gap: usize) -> (gb: Self)
        requires
            s@.len() + (if extra_gap < 8 { 8 } else { extra_gap }) <= max_slots(),
        ensures
            gb.wf(),
            gb@.before == s@,
            gb@.after == Seq::<char>::empty(),
            gb.capacity() == s@.len() + (if extra_gap < 8 { 8 } else { extra_gap }),
    {
        broadcast use vstd::string::group_string_axioms;

        let text_len = s.unicode_len();
        let extra: usize = if extra_gap < 8 { 8 } else { extra_gap };
        let total = text_len + extra;
        let mut buf = vec!['\0'; total];
        let mut i: usize = 0;
        for c in it: s.chars()
            invariant
                i == it.index(),
                it.seq() == s@,
                text_len == s@.len(),
                buf@.len() == total,
                total == text_len + extra,
                forall|j: int| 0 <= j < i ==> buf@[j] == s@[j],
        {
            assert(i < s@.len());
            buf.set(i, c);
            i = i + 1;
        }
        let gb = GapBuffer { buf, gap_start: text_len, gap_end: total };
        assert(gb@.before =~= s@);
        assert(gb@.after =~= Seq::<char>::empty());
        gb
    }

    /// A buffer holding `s` with the cursor at its end and a gap of 64 slots.
    pub fn from_str(s: &str) -> (gb: Self)
        requires
            s@.len() + 64 <= max_slots(),
        ensures
            gb.wf(),
            gb@.before == s@,
            gb@.after == Seq::<char>::empty(),
            gb.capacity() == s@.len() + 64,
    {
        Self::from_str_with_capacity(s, 64)
    }

    /// The length of the text, gap excluded.
    pub fn len(&self) -> (n: usize)
        requires
            self.wf(),
        ensures
            n == self@.content().len(),
    {
        self.buf.len() - (self.gap_end - self.gap_start)
    }

    /// Whether the text is empty.
    pub fn is_empty(&self) -> (b: bool)
        requires
            self.wf(),
        ensures
            b == (self@.content().len() == 0),
    {
        self.len() == 0
    }

    /// The number of free slots in the gap.
    fn gap_size(&self) -> (n: usize)
        requires
            self.wf(),
        ensures
            n == self.gap_len(),
    {
        self.gap_end - self.gap_start
    }

    /// Whether making room for `need` characters keeps the array within its
    /// limit, so that typing them is allowed.
    pub fn has_room_for(&self, need: usize) -> (b: bool)
        requires
            self.wf(),
        ensures
            b == self.can_reserve(need as nat),
    {
        let len = self.len();
        let cap = self.buf.len();
        if cap - len >= need {
            true
        } else {
            let g: usize = if need >= len && need >= 16 {
                need
            } else if len >= 16 {
                len
            } else {
                16
            };
            let max: usize = (isize::MAX as usize) / 4;
            g <= max - cap
        }
    }

    /// Grows the array, if the gap is smaller than `need`, so that it has at
    /// least `need` free slots; the text and the cursor stay as they were.
    fn ensure_gap(&mut self, need: usize)
        requires
            old(self).wf(),
            old(self).can_reserve(need as nat),
        ensures
            final(self).wf(),
            final(self)@ == old(self)@,
            final(self).gap_len() >= need,
            final(self).capacity() == old(self).capacity_for(need as nat),
    {
        if self.gap_size() >= need {
            return;
        }
        let current_text = self.len();
        let floor: usize = if current_text >= 16 { current_text } else { 16 };
        let add: usize = if need >= floor { need } else { floor };
        let old_len = self.buf.len();
        let new_len = old_len + add;
        let mut new_buf = vec!['\0'; new_len];
        // The text before the gap keeps its place.
        let mut i: usize = 0;
        while i < self.gap_start
            invariant
                self.wf(),
                self.buf.len() == old_len,
                i <= self.gap_start,
                new_buf@.len() == new_len,
                new_len == old_len + add,
                forall|j: int| 0 <= j < i ==> new_buf@[j] == self.buf@[j],
            decreases self.gap_start - i,
        {
            new_buf.set(i, self.buf[i]);
            i = i + 1;
        }
        // The text after the gap moves to the end of the new array.
        let right_len = old_len - self.gap_end;
        let new_gap_end = new_len - right_len;
        let mut k: usize = 0;
        while k < right_len
            invariant
                self.wf(),
                self.buf.len() == old_len,
                right_len == old_len - self.gap_end,
                new_gap_end == new_len - right_len,
                new_buf@.len() == new_len,
                new_len == old_len + add,
                add >= need,
                self.gap_end - self.gap_start < need,
                k <= right_len,
                forall|j: int| 0 <= j < self.gap_start ==> new_buf@[j] == self.buf@[j],
                forall|j: int|
                    new_gap_end <= j < new_gap_end + k ==> #[trigger] new_buf@[j] == self.buf@[j
                        - new_gap_end + self.gap_end],
            decreases right_len - k,
        {
            new_buf.set(new_gap_end + k, self.buf[self.gap_end + k]);
            k = k + 1;
        }
        let ghost old_view = self@;
        self.buf = new_buf;
        self.gap_end = new_gap_end;
        assert(self@.before =~= old_view.before);
        assert(self@.after =~= old_view.after);
    }

    /// Inserts `ch` at the cursor; the cursor moves past it.
    pub fn insert_char(&mut self, ch: char)
        requires
            old(self).wf(),
            old(self).can_reserve(1),
        ensures
            final(self).wf(),
            final(self)@ == old(self)@.insert(seq![ch]),
            final(self).capacity() == old(self).capacity_for(1),
    {
        self.ensure_gap(1);
        let ghost mid = self@;
        self.buf.set(self.gap_start, ch);
        self.gap_start = self.gap_start + 1;
        assert(self@.before =~= mid.before + seq![ch]);
        assert(self@.after =~= mid.after);
    }

    /// Inserts `s` at the cursor; the cursor moves past it.
    pub fn insert_str(&mut self, s: &str)
        requires
            old(self).wf(),
            old(self).can_reserve(s@.len()),
        ensures
            final(self).wf(),
            final(self)@ == old(self)@.insert(s@),
            final(self).capacity() == old(self).capacity_for(s@.len()),
    {
        broadcast use vstd::string::group_string_axioms;

        let count = s.unicode_len();
        self.ensure_gap(count);
        let ghost mid = self@;
        let ghost start = self.gap_start;
        let ghost cap = self.capacity();
        for ch in it: s.chars()
            invariant
                self.wf(),
                self.capacity() == cap,
                it.seq() == s@,
                count == s@.len(),
                self.gap_start == start + it.index(),
                self.gap_end - start >= count,
                self.buf@.take(self.gap_start as int) == mid.before + s@.take(it.index() as int),
                self.buf@.skip(self.gap_end as int) == mid.after,
        {
            assert(it.index() < s@.len());
            let ghost prev = self.buf@;
            self.buf.set(self.gap_start, ch);
            self.gap_start = self.gap_start + 1;
            assert(self.buf@.take(self.gap_start as int) =~= prev.take(
                self.gap_start - 1,
            ).push(ch));
            assert(s@.take(it.index() + 1) =~= s@.take(it.index() as int).push(ch));
            assert(self.buf@.skip(self.gap_end as int) =~= prev.skip(self.gap_end as int));
        }
        assert(s@.take(s@.len() as int) =~= s@);
    }

    /// Deletes the character right of the cursor; `false` when there is none.
    pub fn delete(&mut self) -> (deleted: bool)
        requires
            old(self).wf(),
        ensures
            final(self).wf(),
            deleted == (old(self)@.after.len() > 0),
            final(self)@ == old(self)@.delete(),
            final(self).capacity() == old(self).capacity(),
    {
        if self.gap_end < self.buf.len() {
            self.gap_end = self.gap_end + 1;
            assert(self@.after =~= old(self)@.after.drop_first());
            true
        } else {
            false
        }
    }

    /// Deletes the character left of the cursor; `false` when there is none.
    pub fn backspace(&mut self) -> (deleted: bool)
        requires
            old(self).wf(),
        ensures
            final(self).wf(),
            deleted == (old(self)@.before.len() > 0),
            final(self)@ == old(self)@.backspace(),
            final(self).capacity() == old(self).capacity(),
    {
        if self.gap_start > 0 {
            self.gap_start = self.gap_start - 1;
            assert(self@.before =~= old(self)@.before.drop_last());
            true
        } else {
            false
        }
    }

    /// Moves the cursor one character left; `false` when it is at the start.
    pub fn move_left(&mut self) -> (moved: bool)
        requires
            old(self).wf(),
        ensures
            final(self).wf(),
            moved == (old(self)@.before.len() > 0),
            final(self)@ == old(self)@.left(),
            final(self).capacity() == old(self).capacity(),
    {
        if self.gap_start > 0 {
            self.gap_start = self.gap_start - 1;
            self.gap_end = self.gap_end - 1;
            let c = self.buf[self.gap_start];
            self.buf.set(self.gap_end, c);
            assert(self@.before =~= old(self)@.before.drop_last());
            assert(self@.after =~= seq![old(self)@.before.last()] + old(self)@.after);
            true
        } else {
            false
        }
    }

    /// Moves the cursor one character right; `false` when it is at the end.
    pub fn move_right(&mut self) -> (moved: bool)
        requires
            old(self).wf(),
        ensures
            final(self).wf(),
            moved == (old(self)@.after.len() > 0),
            final(self)@ == old(self)@.right(),
            final(self).capacity() == old(self).capacity(),
    {
        if self.gap_end < self.buf.len() {
            let c = self.buf[self.gap_end];
            self.buf.set(self.gap_start, c);
            self.gap_start = self.gap_start + 1;
            self.gap_end = self.gap_end + 1;
            assert(self@.before =~= old(self)@.before.push(old(self)@.after[0]));
            assert(self@.after =~= old(self)@.after.drop_first());
            true
        } else {
            false
        }
    }

    /// The text: every character outside the gap, in order.
    pub fn text(&self) -> (s: String)
        requires
            self.wf(),
        ensures
            s@ == self@.content(),
    {
        let mut out = String::new();
        let mut i: usize = 0;
        while i < self.gap_start
            invariant
                self.wf(),
                i <= self.gap_start,
                out@ == self.buf@.take(i as int),
            decreases self.gap_start - i,
        {
            out.push(self.buf[i]);
            assert(self.buf@.take(i + 1) =~= self.buf@.take(i as int).push(self.buf@[i as int]));
            i = i + 1;
        }
        let mut j: usize = self.gap_end;
        while j < self.buf.len()
            invariant
                self.wf(),
                self.gap_end <= j <= self.buf.len(),
                out@ == self@.before + self.buf@.subrange(self.gap_end as int, j as int),
            decreases self.buf.len() - j,
        {
            let ghost prev = out@;
            out.push(self.buf[j]);
            assert(self.buf@.subrange(self.gap_end as int, j + 1) =~= self.buf@.subrange(
                self.gap_end as int,
                j as int,
            ).push(self.buf@[j as int]));
            assert(out@ =~= self@.before + self.buf@.subrange(self.gap_end as int, j + 1));
            j = j + 1;
        }
        assert(self.buf@.subrange(self.gap_end as int, self.buf.len() as int) =~= self@.after);
        out
    }

    /// The cursor's offset in the text.
    pub fn cursor_offset(&self) -> (n: usize)
        requires
            self.wf(),
        ensures
            n == self@.cursor(),
    {
        self.gap_start
    }
}

} // verus!
