//! Line and column navigation on top of the gap buffer.
use vstd::prelude::*;
use crate::text::string_from_chars;
use crate::wordie::gap_buffer::{GapBuffer, EditState, max_slots, slots_after_reserve, reserve_fits};

verus! {

/// A cursor position: 0-based line and column.
#[derive(Debug, Clone, Copy, PartialEq, Eq, Structural)]
pub struct CursorPos {
    pub line: usize,
    pub col: usize,
}

/// `l` without one trailing carriage return.
pub open spec fn strip_cr(l: Seq<char>) -> Seq<char> {
    if l.len() > 0 && l.last() == '\r' {
        l.drop_last()
    } else {
        l
    }
}

/// Reading `t` from the left: the lines finished by a newline so far (each
/// without its line ending), and the characters of the line not yet finished.
pub open spec fn split_lines(t: Seq<char>) -> (Seq<Seq<char>>, Seq<char>)
    decreases t.len(),
{
    if t.len() == 0 {
        (Seq::empty(), Seq::empty())
    } else {
        let (done, cur) = split_lines(t.drop_last());
        if t.last() == '\n' {
            (done.push(strip_cr(cur)), Seq::empty())
        } else {
            (done, cur.push(t.last()))
        }
    }
}

/// The lines of `t` as `str::lines` yields them: split at each `\n`, a `\r`
/// before it dropped, and no empty last line after a final `\n`.
pub open spec fn lines_of(t: Seq<char>) -> Seq<Seq<char>> {
    let (done, cur) = split_lines(t);
    if cur.len() > 0 {
        done.push(cur)
    } else {
        done
    }
}

/// Line and column reached after reading `p`: each `\n` starts a new line.
pub open spec fn pos_after(p: Seq<char>) -> (nat, nat)
    decreases p.len(),
{
    if p.len() == 0 {
        (0, 0)
    } else {
        let (line, col) = pos_after(p.drop_last());
        if p.last() == '\n' {
            (line + 1, 0)
        } else {
            (line, col + 1)
        }
    }
}

/// The position of offset `k` in `t`, offsets past the end counting as the end.
pub open spec fn pos_of(t: Seq<char>, k: nat) -> (nat, nat) {
    pos_after(t.take(if k < t.len() { k as int } else { t.len() as int }))
}

/// The offsets at which the lines of `t` start: 0, and one past each `\n`.
pub open spec fn line_starts(t: Seq<char>) -> Seq<int>
    decreases t.len(),
{
    if t.len() == 0 {
        seq![0int]
    } else {
        let s = line_starts(t.drop_last());
        if t.last() == '\n' {
            s.push(t.len() as int)
        } else {
            s
        }
    }
}

/// The line `line` clamped to the last line of `t`.
pub open spec fn clamped_line(t: Seq<char>, line: nat) -> nat {
    let s = line_starts(t);
    if line < s.len() - 1 {
        line
    } else {
        (s.len() - 1) as nat
    }
}

/// The number of characters of line `l` of `t`, its line ending excluded.
pub open spec fn line_length(t: Seq<char>, l: nat) -> nat {
    let s = line_starts(t);
    let start = s[l as int];
    let end = if l + 1 < s.len() { s[l + 1 as int] - 1 } else { t.len() as int };
    if end > start {
        (end - start) as nat
    } else {
        0
    }
}

/// The offset that (`line`, `col`) names in `t`: the line is clamped to the
/// last one, the column to the line's length.
pub open spec fn target_offset(t: Seq<char>, line: nat, col: nat) -> nat {
    let l = clamped_line(t, line);
    let len = line_length(t, l);
    (line_starts(t)[l as int] + if col < len { col } else { len }) as nat
}

proof fn lemma_pos_after_bound(p: Seq<char>)
    ensures
        pos_after(p).0 <= p.len(),
        pos_after(p).1 <= p.len(),
    decreases p.len(),
{
    if p.len() > 0 {
        lemma_pos_after_bound(p.drop_last());
    }
}

proof fn lemma_line_starts(t: Seq<char>)
    ensures
        line_starts(t).len() >= 1,
        line_starts(t)[0] == 0,
        forall|k: int| 0 <= k < line_starts(t).len() ==> 0 <= #[trigger] line_starts(t)[k] <= t.len(),
        forall|k: int| 1 <= k < line_starts(t).len() ==> #[trigger] line_starts(t)[k] >= 1,
        line_starts(t).len() <= t.len() + 1,
        forall|i: int, j: int|
            0 <= i < j < line_starts(t).len() ==> #[trigger] line_starts(t)[i] < #[trigger] line_starts(
                t,
            )[j],
    decreases t.len(),
{
    if t.len() > 0 {
        lemma_line_starts(t.drop_last());
    }
}

/// The position after reading `p` is the number of line starts in `p`
/// (less one) and the distance from the last of them.
proof fn lemma_pos_after_starts(p: Seq<char>)
    ensures
        pos_after(p) == ((line_starts(p).len() - 1) as nat, (p.len() - line_starts(p).last()) as nat),
    decreases p.len(),
{
    lemma_line_starts(p);
    if p.len() > 0 {
        lemma_pos_after_starts(p.drop_last());
        lemma_line_starts(p.drop_last());
    }
}

/// The line starts of a prefix of `t` that ends inside line `j` are the
/// first `j + 1` line starts of `t`.
proof fn lemma_starts_of_prefix(t: Seq<char>, k: int, j: int)
    requires
        0 <= k <= t.len(),
        0 <= j < line_starts(t).len(),
        line_starts(t)[j] <= k,
        j + 1 < line_starts(t).len() ==> k < line_starts(t)[j + 1],
    ensures
        line_starts(t.take(k)) == line_starts(t).take(j + 1),
    decreases t.len(),
{
    lemma_line_starts(t);
    let s = line_starts(t);
    if k == t.len() {
        assert(t.take(k) =~= t);
        if j + 1 < s.len() {
            assert(s[j + 1] <= t.len());
        }
        assert(s.take(j + 1) =~= s);
    } else {
        let t1 = t.drop_last();
        lemma_line_starts(t1);
        let s1 = line_starts(t1);
        assert(t1.take(k) =~= t.take(k));
        assert forall|i: int| 0 <= i < s1.len() implies s[i] == s1[i] by {}
        if j == s.len() - 1 && s.len() > s1.len() {
            assert(s[j] == t.len());
        }
        assert(j < s1.len());
        if j + 1 < s1.len() {
            assert(k < s1[j + 1]);
        }
        lemma_starts_of_prefix(t1, k, j);
        assert(s1.take(j + 1) =~= s.take(j + 1));
    }
}

/// Moving the cursor to (`line`, `col`) and asking for its position gives back
/// that position, with the line clamped to the last line and the column to
/// that line's length.
pub proof fn law_position_after_move(t: Seq<char>, line: nat, col: nat)
    ensures
        ({
            let l = clamped_line(t, line);
            let len = line_length(t, l);
            pos_of(t, target_offset(t, line, col)) == (l, if col < len { col } else { len })
        }),
{
    lemma_line_starts(t);
    let s = line_starts(t);
    let l = clamped_line(t, line);
    let len = line_length(t, l);
    let k = target_offset(t, line, col);
    lemma_target_bound(t, line, col);
    if l + 1 < s.len() {
        assert(s[l as int] < s[l + 1 as int]);
    }
    lemma_starts_of_prefix(t, k as int, l as int);
    lemma_pos_after_starts(t.take(k as int));
}

proof fn lemma_target_bound(t: Seq<char>, line: nat, col: nat)
    ensures
        target_offset(t, line, col) <= t.len(),
{
    lemma_line_starts(t);
}

/// The number of `\n` characters of `s`.
pub open spec fn newline_count(s: Seq<char>) -> nat
    decreases s.len(),
{
    if s.len() == 0 {
        0
    } else {
        newline_count(s.drop_last()) + if s.last() == '\n' {
            1nat
        } else {
            0nat
        }
    }
}

/// `s` holds no `\n`.
pub open spec fn no_newline(s: Seq<char>) -> bool {
    forall|i: int| 0 <= i < s.len() ==> s[i] != '\n'
}

/// `s` is empty or ends a line: what follows it starts a new line.
pub open spec fn at_line_start(s: Seq<char>) -> bool {
    s.len() == 0 || s.last() == '\n'
}

proof fn lemma_done_counts_newlines(t: Seq<char>)
    ensures
        split_lines(t).0.len() == newline_count(t),
        t.len() > 0 && t.last() == '\n' ==> split_lines(t).1.len() == 0,
    decreases t.len(),
{
    if t.len() > 0 {
        lemma_done_counts_newlines(t.drop_last());
    }
}

proof fn lemma_split_no_newline(x: Seq<char>, a: Seq<char>)
    requires
        no_newline(a),
    ensures
        split_lines(x + a).0 == split_lines(x).0,
        split_lines(x + a).1 == split_lines(x).1 + a,
    decreases a.len(),
{
    if a.len() == 0 {
        assert(x + a =~= x);
        assert(split_lines(x).1 + a =~= split_lines(x).1);
    } else {
        let a1 = a.drop_last();
        assert forall|i: int| 0 <= i < a1.len() implies a1[i] != '\n' by {
            assert(a1[i] == a[i]);
        }
        lemma_split_no_newline(x, a1);
        assert((x + a).drop_last() =~= x + a1);
        assert(a[a.len() - 1] != '\n');
        assert((split_lines(x).1 + a1).push(a.last()) =~= split_lines(x).1 + a);
    }
}

proof fn lemma_split_extends(x: Seq<char>, y: Seq<char>)
    ensures
        split_lines(x + y).0.len() >= split_lines(x).0.len(),
        forall|i: int|
            0 <= i < split_lines(x).0.len() ==> #[trigger] split_lines(x + y).0[i] == split_lines(
                x,
            ).0[i],
    decreases y.len(),
{
    if y.len() == 0 {
        assert(x + y =~= x);
    } else {
        lemma_split_extends(x, y.drop_last());
        assert((x + y).drop_last() =~= x + y.drop_last());
    }
}

/// Line `n` of a text is the text between its `n`th line ending and the next
/// one, without that line ending: a `\n`, or `\r\n` for every line alike.
/// With `p` the text before the line (holding `n` line endings), `a` the
/// line and `b` whatever follows, `lines_of` gives `a`; so does a last line
/// with no ending.
pub proof fn law_line_between_endings(p: Seq<char>, a: Seq<char>, ending: Seq<char>, b: Seq<char>)
    requires
        at_line_start(p),
        no_newline(a),
        ending == seq!['\r', '\n'] || (ending == seq!['\n'] && !(a.len() > 0 && a.last() == '\r')),
    ensures
        lines_of(p + a + ending + b).len() > newline_count(p),
        lines_of(p + a + ending + b)[newline_count(p) as int] == a,
        a.len() > 0 ==> lines_of(p + a).len() == newline_count(p) + 1,
        a.len() > 0 ==> lines_of(p + a)[newline_count(p) as int] == a,
{
    let n = newline_count(p);
    lemma_done_counts_newlines(p);
    lemma_split_no_newline(p, a);
    let (done_p, cur_p) = split_lines(p);
    assert(cur_p.len() == 0);
    assert(cur_p + a =~= a);
    let x = p + a + ending;
    if ending == seq!['\n'] {
        assert(x.drop_last() =~= p + a);
        assert(split_lines(x).0 == done_p.push(a));
    } else {
        assert(x.drop_last() =~= (p + a) + seq!['\r']);
        assert(((p + a) + seq!['\r']).drop_last() =~= p + a);
        assert(split_lines((p + a) + seq!['\r']).1 == a.push('\r'));
        assert(a.push('\r').drop_last() =~= a);
        assert(split_lines(x).0 == done_p.push(a));
    }
    lemma_split_extends(x, b);
    assert(split_lines(x + b).0[n as int] == a);
}

/// The line of a position is the number of `\n` characters before it, and
/// its column is the number of characters since the last of them (or since
/// the start): no other character starts a line.
pub proof fn law_position_counts_newlines(q: Seq<char>, r: Seq<char>)
    requires
        at_line_start(q),
        no_newline(r),
    ensures
        pos_after(q + r) == (newline_count(q + r), r.len()),
        newline_count(q + r) == newline_count(q),
    decreases r.len(),
{
    if r.len() == 0 {
        assert(q + r =~= q);
        lemma_line_is_newline_count(q);
    } else {
        let r1 = r.drop_last();
        assert forall|i: int| 0 <= i < r1.len() implies r1[i] != '\n' by {
            assert(r1[i] == r[i]);
        }
        law_position_counts_newlines(q, r1);
        assert((q + r).drop_last() =~= q + r1);
        assert(r[r.len() - 1] != '\n');
    }
}

proof fn lemma_line_is_newline_count(p: Seq<char>)
    ensures
        pos_after(p).0 == newline_count(p),
        p.len() > 0 && p.last() == '\n' ==> pos_after(p).1 == 0,
    decreases p.len(),
{
    if p.len() > 0 {
        lemma_line_is_newline_count(p.drop_last());
    }
}

/// The lines start at offset 0 and right after each `\n`, and nowhere else:
/// there is one line start more than there are `\n` characters, and each
/// start but the first follows a `\n`.
pub proof fn law_line_starts_follow_newlines(t: Seq<char>)
    ensures
        line_starts(t).len() == newline_count(t) + 1,
        line_starts(t)[0] == 0,
        forall|k: int|
            1 <= k < line_starts(t).len() ==> 1 <= #[trigger] line_starts(t)[k] <= t.len() && t[line_starts(t)[k] - 1]
                == '\n',
        forall|i: int, j: int|
            0 <= i < j < line_starts(t).len() ==> #[trigger] line_starts(t)[i] < #[trigger] line_starts(t)[j],
    decreases t.len(),
{
    lemma_line_starts(t);
    if t.len() > 0 {
        let t1 = t.drop_last();
        law_line_starts_follow_newlines(t1);
        assert forall|k: int| 1 <= k < line_starts(t).len() implies 1 <= #[trigger] line_starts(t)[k] <= t.len()
            && t[line_starts(t)[k] - 1] == '\n' by {
            if k < line_starts(t1).len() {
                assert(line_starts(t)[k] == line_starts(t1)[k]);
                assert(t[line_starts(t1)[k] - 1] == t1[line_starts(t1)[k] - 1]);
            }
        }
    }
}

/// An editor: a gap buffer with line and column navigation.
#[derive(Debug)]
pub struct Editor {
    gb: GapBuffer,
}

impl View for Editor {
    type V = EditState;

    closed spec fn view(&self) -> EditState {
        self.gb@
    }
}

impl Editor {
    /// The editor's buffer is consistent.
    pub closed spec fn wf(&self) -> bool {
        self.gb.wf()
    }

    /// The number of slots of the editor's buffer.
    pub closed spec fn capacity(&self) -> nat {
        self.gb.capacity()
    }

    /// The number of slots after typing `need` characters.
    pub open spec fn capacity_for(&self, need: nat) -> nat {
        slots_after_reserve(self.capacity(), self@.content().len(), need)
    }

    /// Typing `need` characters keeps the buffer within its limit.
    pub open spec fn can_reserve(&self, need: nat) -> bool {
        reserve_fits(self.capacity(), self@.content().len(), need)
    }

    /// An empty editor (a buffer of 64 slots).
    pub fn new() -> (ed: Self)
        ensures
            ed.wf(),
            ed@.before == Seq::<char>::empty(),
            ed@.after == Seq::<char>::empty(),
            ed.capacity() == 64,
    {
        Editor { gb: GapBuffer::with_capacity(64) }
    }

    /// An editor holding `s`, the cursor at its end.
    pub fn from_str(s: &str) -> (ed: Self)
        requires
            s@.len() + 64 <= max_slots(),
        ensures
            ed.wf(),
            ed@.before == s@,
            ed@.after == Seq::<char>::empty(),
            ed.capacity() == s@.len() + 64,
    {
        Editor { gb: GapBuffer::from_str(s) }
    }

    /// Whether typing `need` more characters keeps the buffer within its
    /// limit.
    pub fn has_room_for(&self, need: usize) -> (b: bool)
        requires
            self.wf(),
        ensures
            b == self.can_reserve(need as nat),
    {
        self.gb.has_room_for(need)
    }

    /// Inserts `c` at the cursor.
    pub fn insert_char(&mut self, c: char)
        requires
            old(self).wf(),
            old(self).can_reserve(1),
        ensures
            final(self).wf(),
            final(self)@ == old(self)@.insert(seq![c]),
            final(self).capacity() == old(self).capacity_for(1),
    {
        self.gb.insert_char(c);
    }

    /// Inserts `s` at the cursor.
    pub fn insert_str(&mut self, s: &str)
        requires
            old(self).wf(),
            old(self).can_reserve(s@.len()),
        ensures
            final(self).wf(),
            final(self)@ == old(self)@.insert(s@),
            final(self).capacity() == old(self).capacity_for(s@.len()),
    {
        self.gb.insert_str(s);
    }

    /// Deletes the character right of the cursor; `false` when there is none.
    pub fn delete(&mut self) -> (deleted: bool)
        requires
            old(self).wf(),
        ensures
            final(self).wf(),
            deleted == (old(self)@.after.len() > 0),
            final(self)@ == old(self)@.delete(),
            final(self).capacity() == old(self).capacity(),
    {
        self.gb.delete()
    }

    /// Deletes the character left of the cursor; `false` when there is none.
    pub fn backspace(&mut self) -> (deleted: bool)
        requires
            old(self).wf(),
        ensures
            final(self).wf(),
            deleted == (old(self)@.before.len() > 0),
            final(self)@ == old(self)@.backspace(),
            final(self).capacity() == old(self).capacity(),
    {
        self.gb.backspace()
    }

    /// Moves the cursor one character left; `false` when it is at the start.
    pub fn move_left(&mut self) -> (moved: bool)
        requires
            old(self).wf(),
        ensures
            final(self).wf(),
            moved == (old(self)@.before.len() > 0),
            final(self)@ == old(self)@.left(),
            final(self).capacity() == old(self).capacity(),
    {
        self.gb.move_left()
    }

    /// Moves the cursor one character right; `false` when it is at the end.
    pub fn move_right(&mut self) -> (moved: bool)
        requires
            old(self).wf(),
        ensures
            final(self).wf(),
            moved == (old(self)@.after.len() > 0),
            final(self)@ == old(self)@.right(),
            final(self).capacity() == old(self).capacity(),
    {
        self.gb.move_right()
    }

    /// The text.
    pub fn text(&self) -> (s: String)
        requires
            self.wf(),
        ensures
            s@ == self@.content(),
    {
        self.gb.text()
    }

    /// The `n`th line (0-based) of the text, as `str::lines` splits it.
    pub fn line(&self, n: usize) -> (l: Option<String>)
        requires
            self.wf(),
        ensures
            l is None <==> n >= lines_of(self@.content()).len(),
            l matches Some(s) ==> s@ == lines_of(self@.content())[n as int],
    {
        broadcast use vstd::string::group_string_axioms;

        let text = self.gb.text();
        let t = text.as_str();
        let total = t.unicode_len();
        let ghost tv = t@;
        let mut done: usize = 0;
        let mut cur: Vec<char> = Vec::new();
        let mut found: Option<String> = None;
        for ch in it: t.chars()
            invariant
                it.seq() == tv,
                total == tv.len(),
                it.index() <= tv.len(),
                done == split_lines(tv.take(it.index() as int)).0.len(),
                cur@ == split_lines(tv.take(it.index() as int)).1,
                done <= it.index(),
                found is None <==> done <= n,
                found matches Some(s) ==> s@ == split_lines(tv.take(it.index() as int)).0[n as int],
        {
            let ghost i = it.index();
            assert(tv.take(i + 1).drop_last() =~= tv.take(i));
            assert(tv.take(i + 1).last() == ch);
            if ch == '\n' {
                let l = cur.len();
                if l > 0 && cur[l - 1] == '\r' {
                    cur.pop();
                }
                if done == n {
                    found = Some(string_from_chars(cur.as_slice()));
                }
                done = done + 1;
                cur = Vec::new();
            } else {
                cur.push(ch);
            }
        }
        assert(tv.take(tv.len() as int) =~= tv);
        if found.is_none() && done == n && cur.len() > 0 {
            found = Some(string_from_chars(cur.as_slice()));
        }
        found
    }

    /// The cursor's line and column in the text.
    pub fn cursor_pos(&self) -> (p: CursorPos)
        requires
            self.wf(),
        ensures
            (p.line as nat, p.col as nat) == pos_of(self@.content(), self@.cursor()),
    {
        broadcast use vstd::string::group_string_axioms;

        let text = self.gb.text();
        let t = text.as_str();
        let cur = self.gb.cursor_offset();
        let total = t.unicode_len();
        let ghost tv = t@;
        let mut idx: usize = 0;
        let mut line: usize = 0;
        let mut col: usize = 0;
        for ch in it: t.chars()
            invariant
                it.seq() == tv,
                total == tv.len(),
                it.index() <= tv.len(),
                idx == if it.index() < cur { it.index() } else { cur as int },
                (line as nat, col as nat) == pos_after(tv.take(idx as int)),
        {
            proof {
                lemma_pos_after_bound(tv.take(idx as int));
            }
            if idx < cur {
                assert(tv.take(idx + 1).drop_last() =~= tv.take(idx as int));
                if ch == '\n' {
                    line = line + 1;
                    col = 0;
                } else {
                    col = col + 1;
                }
                idx = idx + 1;
            }
        }
        CursorPos { line, col }
    }

    /// Moves the cursor to (`line`, `col`): the line clamped to the last
    /// line, the column to the line's length.
    pub fn move_to(&mut self, line: usize, col: usize)
        requires
            old(self).wf(),
        ensures
            final(self).wf(),
            final(self)@ == old(self)@.moved_to(
                target_offset(old(self)@.content(), line as nat, col as nat),
            ),
            final(self).capacity() == old(self).capacity(),
    {
        broadcast use vstd::string::group_string_axioms;

        let text = self.gb.text();
        let t = text.as_str();
        let total = t.unicode_len();
        let ghost tv = t@;
        let mut starts: Vec<usize> = Vec::new();
        starts.push(0);
        let mut i: usize = 0;
        for ch in it: t.chars()
            invariant
                it.seq() == tv,
                total == tv.len(),
                i == it.index(),
                i <= tv.len(),
                starts@.len() == line_starts(tv.take(i as int)).len(),
                forall|k: int|
                    0 <= k < starts@.len() ==> starts@[k] as int == #[trigger] line_starts(
                        tv.take(i as int),
                    )[k],
        {
            assert(tv.take(i + 1).drop_last() =~= tv.take(i as int));
            if ch == '\n' {
                starts.push(i + 1);
            }
            i = i + 1;
        }
        assert(tv.take(tv.len() as int) =~= tv);
        proof {
            lemma_line_starts(tv);
            lemma_target_bound(tv, line as nat, col as nat);
        }
        let last = starts.len() - 1;
        let l = if line < last { line } else { last };
        let line_start = starts[l];
        let line_end = if l + 1 < starts.len() { starts[l + 1] - 1 } else { total };
        let line_len = if line_end > line_start { line_end - line_start } else { 0 };
        let target = line_start + if col < line_len { col } else { line_len };
        assert(target == target_offset(tv, line as nat, col as nat));
        let ghost content = self@.content();
        proof {
            self.gb.lemma_len_bound();
        }
        let ghost cap = self.gb.capacity();
        while self.gb.cursor_offset() < target
            invariant
                self.gb.wf(),
                self.gb.capacity() == cap,
                self@.content() == content,
                target <= content.len(),
            decreases target - self@.cursor(),
        {
            self.gb.move_right();
            assert(self@.content() =~= content);
        }
        while self.gb.cursor_offset() > target
            invariant
                self.gb.wf(),
                self.gb.capacity() == cap,
                self@.content() == content,
                self@.cursor() >= target,
            decreases self@.cursor() - target,
        {
            self.gb.move_left();
            assert(self@.content() =~= content);
        }
        assert(self@.before =~= content.take(target as int));
        assert(self@.after =~= content.skip(target as int));
    }

    /// Moves the cursor one line up, keeping its column where the line allows.
    pub fn move_up(&mut self)
        requires
            old(self).wf(),
        ensures
            final(self).wf(),
            ({
                let t = old(self)@.content();
                let (line, col) = pos_of(t, old(self)@.cursor());
                final(self)@ == old(self)@.moved_to(
                    target_offset(t, if line > 0 { (line - 1) as nat } else { 0 }, col),
                )
            }),
            final(self).capacity() == old(self).capacity(),
    {
        let pos = self.cursor_pos();
        let line = if pos.line > 0 { pos.line - 1 } else { 0 };
        self.move_to(line, pos.col);
    }

    /// Moves the cursor one line down, keeping its column where the line allows.
    pub fn move_down(&mut self)
        requires
            old(self).wf(),
        ensures
            final(self).wf(),
            ({
                let t = old(self)@.content();
                let (line, col) = pos_of(t, old(self)@.cursor());
                final(self)@ == old(self)@.moved_to(target_offset(t, line + 1, col))
            }),
            final(self).capacity() == old(self).capacity(),
    {
        let pos = self.cursor_pos();
        proof {
            let t = self@.content();
            let k = if self@.cursor() < t.len() { self@.cursor() as int } else { t.len() as int };
            lemma_pos_after_bound(t.take(k));
            self.gb.lemma_len_bound();
        }
        self.move_to(pos.line + 1, pos.col);
    }
}

} // verus!
