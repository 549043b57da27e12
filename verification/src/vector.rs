//! A growable array whose capacity starts at one slot and doubles whenever it
//! is full.
use vstd::prelude::*;
use vstd::layout::size_of;

verus! {

/// `n` is a power of two.
pub open spec fn power_of_two(n: nat) -> bool
    decreases n,
{
    if n <= 1 {
        n == 1
    } else {
        n % 2 == 0 && power_of_two(n / 2)
    }
}

/// The capacity after growing from `cap`: one slot at first, then double.
pub open spec fn grown(cap: nat) -> nat {
    if cap == 0 {
        1
    } else {
        2 * cap
    }
}

/// Popping right after pushing gives back the pushed element and leaves the
/// elements as they were.
pub proof fn law_pop_undoes_push<T>(s: Seq<T>, x: T)
    ensures
        s.push(x).len() > 0,
        s.push(x).last() == x,
        s.push(x).drop_last() == s,
{
    assert(s.push(x).drop_last() =~= s);
}

/// Removing at an index right after inserting there gives back the inserted
/// element and leaves the elements as they were.
pub proof fn law_remove_undoes_insert<T>(s: Seq<T>, i: int, x: T)
    requires
        0 <= i <= s.len(),
    ensures
        s.insert(i, x)[i] == x,
        s.insert(i, x).remove(i) == s,
{
    assert(s.insert(i, x).remove(i) =~= s);
}

/// Growing keeps the capacity a power of two, and at least doubles a
/// non-zero capacity.
pub proof fn law_growth_doubles(c: nat)
    requires
        c == 0 || power_of_two(c),
    ensures
        power_of_two(grown(c)),
        c > 0 ==> grown(c) == 2 * c,
{
    if c > 0 {
        assert((2 * c) / 2 == c);
    }
}

/// A call on a vector.
pub enum VecCall<T> {
    Push(T),
    Pop,
    Insert(int, T),
    Remove(int),
}

/// The elements and the capacity after call `c` on elements `s` in a
/// vector of capacity `cap`.
pub open spec fn after_vec_call<T>(s: Seq<T>, cap: nat, c: VecCall<T>) -> (Seq<T>, nat) {
    let grown_cap = if s.len() < cap {
        cap
    } else {
        grown(cap)
    };
    match c {
        VecCall::Push(x) => (s.push(x), grown_cap),
        VecCall::Pop => (if s.len() > 0 { s.drop_last() } else { s }, cap),
        VecCall::Insert(i, x) => (s.insert(i, x), grown_cap),
        VecCall::Remove(i) => (s.remove(i), cap),
    }
}

/// The elements and the capacity after the calls `calls`, in turn.
pub open spec fn after_vec_calls<T>(s: Seq<T>, cap: nat, calls: Seq<VecCall<T>>) -> (Seq<T>, nat)
    decreases calls.len(),
{
    if calls.len() == 0 {
        (s, cap)
    } else {
        let (s2, cap2) = after_vec_call(s, cap, calls[0]);
        after_vec_calls(s2, cap2, calls.drop_first())
    }
}

/// Every index of `calls` is in range when it is used: at most the length
/// for an insert, below it for a remove.
pub open spec fn indices_in_range<T>(s: Seq<T>, cap: nat, calls: Seq<VecCall<T>>) -> bool
    decreases calls.len(),
{
    calls.len() == 0 || {
        &&& match calls[0] {
            VecCall::Insert(i, x) => 0 <= i <= s.len(),
            VecCall::Remove(i) => 0 <= i < s.len(),
            _ => true,
        }
        &&& indices_in_range(
            after_vec_call(s, cap, calls[0]).0,
            after_vec_call(s, cap, calls[0]).1,
            calls.drop_first(),
        )
    }
}

/// The elements the calls add (pushes and inserts) less those they take
/// out (pops that find an element, and removes).
pub open spec fn net_added<T>(s: Seq<T>, cap: nat, calls: Seq<VecCall<T>>) -> int
    decreases calls.len(),
{
    if calls.len() == 0 {
        0
    } else {
        let d: int = match calls[0] {
            VecCall::Push(x) => 1,
            VecCall::Insert(i, x) => 1,
            VecCall::Pop => if s.len() > 0 { -1 } else { 0 },
            VecCall::Remove(i) => -1,
        };
        let (s2, cap2) = after_vec_call(s, cap, calls[0]);
        d + net_added(s2, cap2, calls.drop_first())
    }
}

/// Over any sequence of calls with indices in range, starting from elements
/// that fit a capacity of zero or a power of two: the length changes by the
/// elements added less those taken out, it never exceeds the capacity, and
/// the capacity stays zero or a power of two.
pub proof fn law_len_counts_calls<T>(s: Seq<T>, cap: nat, calls: Seq<VecCall<T>>)
    requires
        s.len() <= cap,
        cap == 0 || power_of_two(cap),
        indices_in_range(s, cap, calls),
    ensures
        after_vec_calls(s, cap, calls).0.len() == s.len() + net_added(s, cap, calls),
        after_vec_calls(s, cap, calls).0.len() <= after_vec_calls(s, cap, calls).1,
        after_vec_calls(s, cap, calls).1 == 0 || power_of_two(after_vec_calls(s, cap, calls).1),
    decreases calls.len(),
{
    if calls.len() > 0 {
        law_growth_doubles(cap);
        let (s2, cap2) = after_vec_call(s, cap, calls[0]);
        law_len_counts_calls(s2, cap2, calls.drop_first());
    }
}

/// A vector of `T` with a capacity that it manages itself. The elements live
/// in `buf`, allocated for `cap` elements each time the vector grows; growing
/// moves them into a fresh buffer, and inserting and removing shift them one
/// place at a time.
pub struct Vec<T> {
    buf: std::vec::Vec<T>,
    cap: usize,
}

impl<T> View for Vec<T> {
    type V = Seq<T>;

    closed spec fn view(&self) -> Seq<T> {
        self.buf@
    }
}

impl<T> Vec<T> {
    /// The elements fit in the capacity, which is 0 or a power of two.
    pub closed spec fn wf(&self) -> bool {
        &&& self.buf@.len() <= self.cap
        &&& (self.cap == 0 || power_of_two(self.cap as nat))
    }

    /// The number of elements the vector can hold before it grows.
    pub closed spec fn capacity_view(&self) -> nat {
        self.cap as nat
    }

    /// Growing from the current capacity stays within what an allocation of
    /// `T`s may span (`isize::MAX` bytes).
    pub open spec fn can_grow(&self) -> bool {
        &&& grown(self.capacity_view()) <= isize::MAX
        &&& grown(self.capacity_view()) * size_of::<T>() <= isize::MAX
    }

    /// Adding one element needs no growth, or a growth that is allowed.
    pub open spec fn can_add(&self) -> bool {
        self@.len() < self.capacity_view() || self.can_grow()
    }

    /// The capacity after adding one element.
    pub open spec fn capacity_after_add(&self) -> nat {
        if self@.len() < self.capacity_view() {
            self.capacity_view()
        } else {
            grown(self.capacity_view())
        }
    }

    /// The elements always fit in the capacity, and the capacity is zero or
    /// a power of two.
    pub proof fn law_within_capacity(&self)
        requires
            self.wf(),
        ensures
            self@.len() <= self.capacity_view(),
            self.capacity_view() == 0 || power_of_two(self.capacity_view()),
    {
    }

    /// An empty vector with no capacity.
    pub fn new() -> (v: Self)
        ensures
            v.wf(),
            v@ == Seq::<T>::empty(),
            v.capacity_view() == 0,
    {
        Vec { buf: std::vec::Vec::new(), cap: 0 }
    }

    /// The capacity.
    pub fn capacity(&self) -> (c: usize)
        ensures
            c == self.capacity_view(),
    {
        self.cap
    }

    /// The number of elements.
    pub fn len(&self) -> (n: usize)
        ensures
            n == self@.len(),
    {
        self.buf.len()
    }

    /// Whether there are no elements.
    pub fn is_empty(&self) -> (b: bool)
        ensures
            b == (self@.len() == 0),
    {
        self.buf.len() == 0
    }

    /// The capacity (used by the operations below).
    fn cap(&self) -> (c: usize)
        ensures
            c == self.capacity_view(),
    {
        self.cap
    }

    /// Doubles the capacity, or sets it to one slot when it is zero: the
    /// elements move to a fresh buffer allocated for the new capacity. A
    /// vector hands out its elements from the back, so they pass through a
    /// scratch buffer to keep their order.
    fn grow(&mut self)
        requires
            old(self).wf(),
            old(self).can_grow(),
        ensures
            final(self).wf(),
            final(self)@ == old(self)@,
            final(self).capacity_view() == grown(old(self).capacity_view()),
    {
        let new_cap: usize = if self.cap == 0 { 1 } else { 2 * self.cap };
        assert(power_of_two(new_cap as nat)) by {
            if self.cap > 0 {
                assert((2 * self.cap) as nat / 2 == self.cap);
            }
        }
        let ghost elems = self.buf@;
        let n = self.buf.len();
        let ghost cap0 = self.cap;
        let mut scratch: std::vec::Vec<T> = std::vec::Vec::with_capacity(n);
        while self.buf.len() > 0
            invariant
                self.cap == cap0,
                self.buf@.len() + scratch@.len() == n,
                elems.len() == n,
                self.buf@ == elems.take(self.buf@.len() as int),
                forall|i: int| 0 <= i < scratch@.len() ==> #[trigger] scratch@[i] == elems[n - 1 - i],
            decreases self.buf@.len(),
        {
            let x = self.buf.pop().unwrap();
            assert(self.buf@ =~= elems.take(self.buf@.len() as int));
            scratch.push(x);
        }
        let mut fresh: std::vec::Vec<T> = std::vec::Vec::with_capacity(new_cap);
        while scratch.len() > 0
            invariant
                fresh@.len() + scratch@.len() == n,
                elems.len() == n,
                fresh@ == elems.take(fresh@.len() as int),
                forall|i: int| 0 <= i < scratch@.len() ==> #[trigger] scratch@[i] == elems[n - 1 - i],
            decreases scratch@.len(),
        {
            let x = scratch.pop().unwrap();
            fresh.push(x);
            assert(fresh@ =~= elems.take(fresh@.len() as int));
        }
        assert(fresh@ =~= elems);
        self.buf = fresh;
        self.cap = new_cap;
    }

    /// Adds `elem` at the end, growing first when the vector is full.
    pub fn push(&mut self, elem: T)
        requires
            old(self).wf(),
            old(self).can_add(),
        ensures
            final(self).wf(),
            final(self)@ == old(self)@.push(elem),
            final(self).capacity_view() == old(self).capacity_after_add(),
    {
        if self.buf.len() == self.cap() {
            self.grow();
        }
        self.buf.push(elem);
    }

    /// Removes the last element and returns it; `None` when there is none.
    pub fn pop(&mut self) -> (r: Option<T>)
        requires
            old(self).wf(),
        ensures
            final(self).wf(),
            final(self).capacity_view() == old(self).capacity_view(),
            old(self)@.len() == 0 ==> r is None && final(self)@ == old(self)@,
            old(self)@.len() > 0 ==> r == Some(old(self)@.last()) && final(self)@
                == old(self)@.drop_last(),
    {
        self.buf.pop()
    }

    /// Inserts `elem` at `index`, shifting the elements after it one place to
    /// the right (`index` may be the length: then it is a push).
    pub fn insert(&mut self, index: usize, elem: T)
        requires
            old(self).wf(),
            old(self).can_add(),
            index <= old(self)@.len(),
        ensures
            final(self).wf(),
            final(self)@ == old(self)@.insert(index as int, elem),
            final(self).capacity_view() == old(self).capacity_after_add(),
    {
        if self.buf.len() == self.cap() {
            self.grow();
        }
        let ghost elems = self.buf@;
        let n = self.buf.len();
        // Each element from `index` on moves one place right: `carry` holds
        // the one displaced last.
        let ghost cap0 = self.cap;
        let mut carry = elem;
        let mut j = index;
        while j < n
            invariant
                self.cap == cap0,
                index <= j <= n,
                n == elems.len(),
                self.buf@.len() == n,
                forall|k: int| 0 <= k < index ==> #[trigger] self.buf@[k] == elems[k],
                forall|k: int| j <= k < n ==> #[trigger] self.buf@[k] == elems[k],
                j == index ==> carry == elem,
                j > index ==> carry == elems[j - 1],
                forall|k: int| index < k < j ==> #[trigger] self.buf@[k] == elems[k - 1],
                j > index ==> self.buf@[index as int] == elem,
            decreases n - j,
        {
            core::mem::swap(&mut self.buf[j], &mut carry);
            j = j + 1;
        }
        self.buf.push(carry);
        assert(self.buf@ =~= elems.insert(index as int, elem));
    }

    /// Removes the element at `index` and returns it, shifting the elements
    /// after it one place to the left.
    pub fn remove(&mut self, index: usize) -> (r: T)
        requires
            old(self).wf(),
            index < old(self)@.len(),
        ensures
            final(self).wf(),
            r == old(self)@[index as int],
            final(self)@ == old(self)@.remove(index as int),
            final(self).capacity_view() == old(self).capacity_view(),
    {
        let ghost elems = self.buf@;
        let n = self.buf.len();
        // Each element after `index` moves one place left, from the back:
        // `carry` holds the one displaced last.
        let ghost cap0 = self.cap;
        let mut carry = self.buf.pop().unwrap();
        let mut j = n - 1;
        while j > index
            invariant
                self.cap == cap0,
                index <= j <= n - 1,
                n == elems.len(),
                self.buf@.len() == n - 1,
                forall|k: int| 0 <= k < j ==> #[trigger] self.buf@[k] == elems[k],
                forall|k: int| j <= k < n - 1 ==> #[trigger] self.buf@[k] == elems[k + 1],
                carry == elems[j as int],
            decreases j,
        {
            j = j - 1;
            core::mem::swap(&mut self.buf[j], &mut carry);
        }
        assert(self.buf@ =~= elems.remove(index as int));
        carry
    }

    /// The elements as a slice.
    pub fn as_slice(&self) -> (s: &[T])
        ensures
            s@ == self@,
    {
        self.buf.as_slice()
    }
}

impl<T> std::ops::Deref for Vec<T> {
    type Target = [T];

    fn deref(&self) -> (s: &[T])
        ensures
            s@ == self@,
    {
        self.buf.as_slice()
    }
}

} // verus!
