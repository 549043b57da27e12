//! A fixed-size block allocator: one byte array carved into equal blocks.
//! The free blocks form a singly linked list threaded through the blocks
//! themselves (each free block keeps the index of the next one in its first
//! word), so that taking and returning a block are O(1).
use vstd::prelude::*;

verus! {

/// The size of a `usize` in bytes, the smallest block the pool hands out.
pub open spec fn word_bytes() -> nat {
    (usize::BITS / 8) as nat
}

/// The abstract state of a pool: its shape, the free list (head first) and
/// the number of blocks handed out.
pub struct PoolState {
    pub block_size: nat,
    pub capacity: nat,
    pub free: Seq<usize>,
    pub in_use: nat,
}

impl PoolState {
    /// The free list names distinct blocks of the pool, and every block is
    /// either on it or handed out.
    pub open spec fn consistent(self) -> bool {
        &&& self.free.no_duplicates()
        &&& forall|i: int| 0 <= i < self.free.len() ==> #[trigger] self.free[i] < self.capacity
        &&& self.free.len() + self.in_use == self.capacity
        &&& self.capacity <= usize::MAX
    }

    /// Block `b` belongs to the pool and is handed out.
    pub open spec fn is_allocated(self, b: usize) -> bool {
        b < self.capacity && !self.free.contains(b)
    }

    /// Taking a block: the head of the free list, or `None` when it is empty.
    pub open spec fn allocate(self) -> (PoolState, Option<usize>) {
        if self.free.len() == 0 {
            (self, None)
        } else {
            (
                PoolState { free: self.free.drop_first(), in_use: self.in_use + 1, ..self },
                Some(self.free[0]),
            )
        }
    }

    /// The block a returned block records as the next free one: the head of
    /// the free list, or `usize::MAX` when the list is empty.
    pub open spec fn head_link(self) -> nat {
        if self.free.len() > 0 {
            self.free[0] as nat
        } else {
            usize::MAX as nat
        }
    }

    /// Returning block `b`: it becomes the head of the free list.
    pub open spec fn deallocate(self, b: usize) -> PoolState {
        PoolState { free: seq![b] + self.free, in_use: (self.in_use - 1) as nat, ..self }
    }
}

/// Taking a block keeps the state consistent; the block taken was free and
/// is now handed out, and every block handed out before still is.
pub proof fn law_allocate_consistent(v: PoolState)
    requires
        v.consistent(),
    ensures
        v.allocate().0.consistent(),
        v.allocate().1 matches Some(b) ==> !v.is_allocated(b) && b < v.capacity && v.allocate().0.is_allocated(b),
        forall|c: usize| v.is_allocated(c) ==> #[trigger] v.allocate().0.is_allocated(c),
{
    if v.free.len() > 0 {
        let f = v.free.drop_first();
        assert forall|c: usize| v.is_allocated(c) implies #[trigger] v.allocate().0.is_allocated(c) by {
            if f.contains(c) {
                let k = choose|k: int| 0 <= k < f.len() && f[k] == c;
                assert(v.free[k + 1] == c);
            }
        }
        assert(v.free[0] < v.capacity);
        assert(v.free.contains(v.free[0]));
        assert(!f.contains(v.free[0]));
    }
}

/// Returning a handed-out block keeps the state consistent and makes that
/// block, and only it, free again.
pub proof fn law_deallocate_consistent(v: PoolState, b: usize)
    requires
        v.consistent(),
        v.is_allocated(b),
    ensures
        v.deallocate(b).consistent(),
        !v.deallocate(b).is_allocated(b),
        forall|c: usize| c != b ==> (#[trigger] v.deallocate(b).is_allocated(c) == v.is_allocated(c)),
{
    lemma_free_list_short(v.free, v.capacity, b);
    let f = seq![b] + v.free;
    assert forall|i: int, j: int| 0 <= i < f.len() && 0 <= j < f.len() && i != j implies f[i] != f[j] by {
        if i == 0 {
            assert(v.free.contains(f[j]));
        } else if j == 0 {
            assert(v.free.contains(f[i]));
        }
    }
    assert(f[0] == b);
    assert forall|c: usize| c != b implies (#[trigger] v.deallocate(b).is_allocated(c) == v.is_allocated(c)) by {
        if v.free.contains(c) {
            let k = choose|k: int| 0 <= k < v.free.len() && v.free[k] == c;
            assert(f[k + 1] == c);
        }
        if f.contains(c) {
            let k = choose|k: int| 0 <= k < f.len() && f[k] == c;
            assert(v.free[k - 1] == c);
        }
    }
}

/// Returning the block just taken restores the pool to the state before.
pub proof fn law_deallocate_undoes_allocate(v: PoolState)
    requires
        v.consistent(),
        v.free.len() > 0,
    ensures
        v.allocate().1 == Some(v.free[0]),
        v.allocate().0.deallocate(v.free[0]) == v,
{
    assert(seq![v.free[0]] + v.free.drop_first() =~= v.free);
}

/// The next block taken after returning a block is that block (the free list
/// is last in, first out), and the state is as before the return.
pub proof fn law_allocate_reuses_last_freed(v: PoolState, b: usize)
    requires
        v.consistent(),
        v.is_allocated(b),
    ensures
        v.deallocate(b).allocate() == (v, Some(b)),
{
    assert((seq![b] + v.free).drop_first() =~= v.free);
    lemma_free_list_short(v.free, v.capacity, b);
}

/// Taking a block fails exactly when every block is handed out.
pub proof fn law_allocate_fails_iff_full(v: PoolState)
    requires
        v.consistent(),
    ensures
        (v.allocate().1 is None) == (v.in_use == v.capacity),
        (v.allocate().1 is None) ==> v.allocate().0 == v,
{
}

/// A call on a pool: take a block, or return block `b`.
#[derive(Debug, Clone, Copy, PartialEq, Eq, Structural)]
pub enum PoolCall {
    Allocate,
    Deallocate(usize),
}

impl PoolState {
    /// The state after call `c`.
    pub open spec fn after_call(self, c: PoolCall) -> PoolState {
        match c {
            PoolCall::Allocate => self.allocate().0,
            PoolCall::Deallocate(b) => self.deallocate(b),
        }
    }

    /// The state after the calls `calls`, in turn.
    pub open spec fn after_calls(self, calls: Seq<PoolCall>) -> PoolState
        decreases calls.len(),
    {
        if calls.len() == 0 {
            self
        } else {
            self.after_call(calls[0]).after_calls(calls.drop_first())
        }
    }

    /// Every block returned by `calls` is handed out when it is returned.
    pub open spec fn returns_handed_out(self, calls: Seq<PoolCall>) -> bool
        decreases calls.len(),
    {
        calls.len() == 0 || {
            &&& (calls[0] matches PoolCall::Deallocate(b) ==> self.is_allocated(b))
            &&& self.after_call(calls[0]).returns_handed_out(calls.drop_first())
        }
    }

    /// The number of calls of `calls` that took a block (found one free).
    pub open spec fn blocks_taken(self, calls: Seq<PoolCall>) -> nat
        decreases calls.len(),
    {
        if calls.len() == 0 {
            0
        } else {
            (if calls[0] is Allocate && self.free.len() > 0 {
                1nat
            } else {
                0nat
            }) + self.after_call(calls[0]).blocks_taken(calls.drop_first())
        }
    }
}

/// The number of calls of `calls` that return a block.
pub open spec fn blocks_returned(calls: Seq<PoolCall>) -> nat
    decreases calls.len(),
{
    if calls.len() == 0 {
        0
    } else {
        (if calls[0] is Deallocate {
            1nat
        } else {
            0nat
        }) + blocks_returned(calls.drop_first())
    }
}

/// Over any sequence of calls that returns only blocks handed out, the pool
/// stays consistent and keeps its shape, and the blocks in use are those
/// taken less those returned, never more than the pool holds.
pub proof fn law_in_use_counts_calls(v: PoolState, calls: Seq<PoolCall>)
    requires
        v.consistent(),
        v.returns_handed_out(calls),
    ensures
        v.after_calls(calls).consistent(),
        v.after_calls(calls).capacity == v.capacity,
        v.after_calls(calls).block_size == v.block_size,
        v.after_calls(calls).in_use + blocks_returned(calls) == v.in_use + v.blocks_taken(calls),
        v.after_calls(calls).in_use <= v.capacity,
    decreases calls.len(),
{
    if calls.len() > 0 {
        let next = v.after_call(calls[0]);
        match calls[0] {
            PoolCall::Allocate => law_allocate_consistent(v),
            PoolCall::Deallocate(b) => {
                law_deallocate_consistent(v, b);
                lemma_free_list_short(v.free, v.capacity, b);
            },
        }
        law_in_use_counts_calls(next, calls.drop_first());
    }
}

/// The set of indices below `n`.
spec fn indices_below(n: nat) -> Set<usize> {
    Set::new(|x: usize| (x as nat) < n)
}

proof fn lemma_indices_below(n: nat)
    requires
        n <= usize::MAX,
    ensures
        indices_below(n).finite(),
        indices_below(n).len() == n,
    decreases n,
{
    if n == 0 {
        assert(indices_below(n) =~= Set::<usize>::empty());
    } else {
        lemma_indices_below((n - 1) as nat);
        assert(indices_below((n - 1) as nat).insert((n - 1) as usize) =~= indices_below(n));
    }
}

proof fn lemma_distinct_within(s: Seq<usize>, a: Set<usize>)
    requires
        a.finite(),
        s.no_duplicates(),
        forall|i: int| 0 <= i < s.len() ==> a.contains(#[trigger] s[i]),
    ensures
        s.len() <= a.len(),
    decreases s.len(),
{
    if s.len() > 0 {
        let x = s.last();
        let rest = s.drop_last();
        assert forall|i: int| 0 <= i < rest.len() implies a.remove(x).contains(#[trigger] rest[i]) by {
            assert(rest[i] == s[i]);
        }
        lemma_distinct_within(rest, a.remove(x));
    }
}

/// A free list of distinct blocks that misses block `b` is shorter than the pool.
proof fn lemma_free_list_short(free: Seq<usize>, capacity: nat, b: usize)
    requires
        capacity <= usize::MAX,
        free.no_duplicates(),
        forall|i: int| 0 <= i < free.len() ==> #[trigger] free[i] < capacity,
        b < capacity,
        !free.contains(b),
    ensures
        free.len() < capacity,
{
    lemma_indices_below(capacity);
    let a = indices_below(capacity).remove(b);
    assert forall|i: int| 0 <= i < free.len() implies a.contains(#[trigger] free[i]) by {
        if free[i] == b {
            assert(free.contains(b));
        }
    }
    lemma_distinct_within(free, a);
}

/// 256 to the power `k`: one more than the largest number `k` bytes hold.
pub open spec fn byte_span(k: nat) -> nat
    decreases k,
{
    if k == 0 {
        1
    } else {
        256 * byte_span((k - 1) as nat)
    }
}

/// The `k` bytes of `n`, least significant first.
pub open spec fn le_bytes(n: nat, k: nat) -> Seq<u8>
    decreases k,
{
    if k == 0 {
        Seq::empty()
    } else {
        seq![(n % 256) as u8] + le_bytes(n / 256, (k - 1) as nat)
    }
}

/// The number whose bytes, least significant first, are `s`.
pub open spec fn le_value(s: Seq<u8>) -> nat
    decreases s.len(),
{
    if s.len() == 0 {
        0
    } else {
        s[0] as nat + 256 * le_value(s.drop_first())
    }
}

/// `k` bytes are written for any number.
pub proof fn lemma_le_bytes_len(n: nat, k: nat)
    ensures
        le_bytes(n, k).len() == k,
    decreases k,
{
    if k > 0 {
        lemma_le_bytes_len(n / 256, (k - 1) as nat);
    }
}

/// Reading back the bytes of a number that fits in them gives the number.
pub proof fn lemma_le_roundtrip(n: nat, k: nat)
    requires
        n < byte_span(k),
    ensures
        le_bytes(n, k).len() == k,
        le_value(le_bytes(n, k)) == n,
    decreases k,
{
    lemma_le_bytes_len(n, k);
    if k > 0 {
        lemma_le_roundtrip(n / 256, (k - 1) as nat);
        assert(le_bytes(n, k).drop_first() =~= le_bytes(n / 256, (k - 1) as nat));
    }
}

/// The bytes of a `usize` hold exactly the `usize` values.
pub proof fn lemma_word_span()
    ensures
        byte_span(word_bytes()) == usize::MAX as nat + 1,
{
    if usize::BITS == 32 {
        reveal_with_fuel(byte_span, 5);
        assert(byte_span(4) == 0x1_0000_0000);
    } else {
        reveal_with_fuel(byte_span, 9);
        assert(byte_span(8) == 0x1_0000_0000_0000_0000);
    }
}

proof fn lemma_span_grows(j: nat, k: nat)
    requires
        j <= k,
    ensures
        1 <= byte_span(j) <= byte_span(k),
    decreases k,
{
    if k > 0 {
        if j < k {
            lemma_span_grows(j, (k - 1) as nat);
        } else {
            lemma_span_grows((k - 1) as nat, (k - 1) as nat);
        }
    }
}

/// The bytes of block `b` of `memory`, each block `block_size` bytes long.
pub open spec fn block_of(memory: Seq<u8>, block_size: nat, b: nat) -> Seq<u8> {
    memory.subrange((b * block_size) as int, (b * block_size + block_size) as int)
}

/// The link a fresh pool of `n` blocks gives block `b`: the next block, or
/// `usize::MAX` for the last one.
pub open spec fn initial_link(b: nat, n: nat) -> nat {
    if b + 1 < n {
        b + 1
    } else {
        usize::MAX as nat
    }
}

proof fn lemma_block_fits(block_size: nat, n: nat, b: nat)
    requires
        b < n,
    ensures
        b * block_size + block_size <= block_size * n,
{
    assert(b * block_size + block_size <= block_size * n) by (nonlinear_arith)
        requires
            b < n,
    ;
}

proof fn lemma_blocks_apart(block_size: nat, b1: nat, b2: nat)
    requires
        b1 < b2,
    ensures
        b1 * block_size + block_size <= b2 * block_size,
{
    assert(b1 * block_size + block_size <= b2 * block_size) by (nonlinear_arith)
        requires
            b1 < b2,
    ;
}

/// Changing bytes only inside block `b` leaves every other block as it was.
proof fn lemma_other_blocks_kept(m1: Seq<u8>, m2: Seq<u8>, block_size: nat, n: nat, b: nat)
    requires
        m1.len() == block_size * n,
        m2.len() == m1.len(),
        b < n,
        forall|j: int|
            0 <= j < m1.len() && !(b * block_size <= j < b * block_size + block_size)
                ==> #[trigger] m2[j] == m1[j],
    ensures
        forall|c: nat| c < n && c != b ==> #[trigger] block_of(m2, block_size, c) == block_of(
            m1,
            block_size,
            c,
        ),
{
    assert forall|c: nat| c < n && c != b implies #[trigger] block_of(m2, block_size, c)
        == block_of(m1, block_size, c) by {
        lemma_block_fits(block_size, n, c);
        if c < b {
            lemma_blocks_apart(block_size, c, b);
        } else {
            lemma_blocks_apart(block_size, b, c);
        }
        assert(block_of(m2, block_size, c) =~= block_of(m1, block_size, c));
    }
}

/// Writes the `word_bytes()` bytes of `value`, least significant first, at
/// `base`.
fn store_word(memory: &mut Vec<u8>, base: usize, value: usize)
    requires
        base + word_bytes() <= old(memory)@.len(),
    ensures
        final(memory)@.len() == old(memory)@.len(),
        forall|j: int|
            0 <= j < old(memory)@.len() ==> #[trigger] final(memory)@[j] == if base <= j < base
                + word_bytes() {
                le_bytes(value as nat, word_bytes())[j - base]
            } else {
                old(memory)@[j]
            },
{
    let word: usize = (usize::BITS / 8) as usize;
    let ghost bytes = le_bytes(value as nat, word_bytes());
    proof {
        lemma_le_bytes_len(value as nat, word_bytes());
    }
    let len = memory.len();
    let mut v: usize = value;
    let mut k: usize = 0;
    while k < word
        invariant
            word == word_bytes(),
            bytes.len() == word,
            memory@.len() == len,
            k <= word,
            base + word <= memory@.len(),
            memory@.len() == old(memory)@.len(),
            le_bytes(v as nat, (word - k) as nat) == bytes.skip(k as int),
            forall|j: int|
                0 <= j < memory@.len() ==> #[trigger] memory@[j] == if base <= j < base + k {
                    bytes[j - base]
                } else {
                    old(memory)@[j]
                },
        decreases word - k,
    {
        proof {
            let rest = le_bytes(v as nat, (word - k) as nat);
            let tail = le_bytes((v as nat) / 256, (word - k - 1) as nat);
            assert(rest == seq![((v as nat) % 256) as u8] + tail);
            lemma_le_bytes_len((v as nat) / 256, (word - k - 1) as nat);
            assert(rest.drop_first() =~= tail);
            assert(bytes.skip(k as int).drop_first() =~= bytes.skip(k + 1));
            assert(rest[0] == bytes[k as int]);
        }
        memory.set(base + k, (v % 256) as u8);
        v = v / 256;
        k = k + 1;
    }
}

/// The number whose `word_bytes()` bytes, least significant first, start at
/// `base`.
fn load_word(memory: &Vec<u8>, base: usize) -> (r: usize)
    requires
        base + word_bytes() <= memory@.len(),
    ensures
        r == le_value(memory@.subrange(base as int, base + word_bytes())),
{
    let word: usize = (usize::BITS / 8) as usize;
    proof {
        lemma_word_span();
    }
    let len = memory.len();
    let mut acc: usize = 0;
    let mut k: usize = word;
    while k > 0
        invariant
            word == word_bytes(),
            memory@.len() == len,
            k <= word,
            base + word <= memory@.len(),
            byte_span(word as nat) == usize::MAX as nat + 1,
            acc == le_value(memory@.subrange(base + k, base + word)),
            acc < byte_span((word - k) as nat),
        decreases k,
    {
        k = k - 1;
        let ghost s = memory@.subrange(base + k, base + word);
        proof {
            assert(s.drop_first() =~= memory@.subrange(base + k + 1, base + word));
            lemma_span_grows((word - k) as nat, word as nat);
            assert(byte_span((word - k) as nat) == 256 * byte_span((word - k - 1) as nat));
        }
        acc = memory[base + k] as usize + 256 * acc;
    }
    acc
}

/// A pool of equal blocks carved from one byte array. A free block keeps, in
/// its first `word_bytes()` bytes (least significant first), the index of the
/// next free block, or `usize::MAX` at the end of the list.
pub struct MemoryPool {
    memory: Vec<u8>,
    block_size: usize,
    total_blocks: usize,
    free_list_head: Option<usize>,
    blocks_in_use: usize,
    free: Ghost<Seq<usize>>,
}

impl View for MemoryPool {
    type V = PoolState;

    closed spec fn view(&self) -> PoolState {
        PoolState {
            block_size: self.block_size as nat,
            capacity: self.total_blocks as nat,
            free: self.free@,
            in_use: self.blocks_in_use as nat,
        }
    }
}

impl MemoryPool {
    /// The links stored in the free blocks spell out the free list, and the
    /// counters agree with it.
    pub closed spec fn wf(&self) -> bool {
        &&& self.total_blocks > 0
        &&& self.block_size >= word_bytes()
        &&& self.block_size * self.total_blocks <= isize::MAX
        &&& self.memory@.len() == self.block_size * self.total_blocks
        &&& self@.consistent()
        &&& self.free_list_head == if self.free@.len() > 0 {
            Some(self.free@[0])
        } else {
            None::<usize>
        }
        &&& forall|i: int|
            0 <= i < self.free@.len() - 1 ==> self.link(#[trigger] self.free@[i] as nat)
                == self.free@[i + 1]
        &&& self.free@.len() > 0 ==> self.link(self.free@.last() as nat) == usize::MAX
    }

    /// The bytes of block `b`.
    pub closed spec fn block(&self, b: nat) -> Seq<u8> {
        block_of(self.memory@, self.block_size as nat, b)
    }

    /// The number in the first word of block `b`: for a free block, the next
    /// free block, or `usize::MAX` at the end of the list.
    pub open spec fn link(&self, b: nat) -> nat {
        le_value(self.block(b).take(word_bytes() as int))
    }

    /// A well-formed pool's abstract state is consistent.
    pub proof fn lemma_consistent(&self)
        requires
            self.wf(),
        ensures
            self@.consistent(),
            self@.capacity > 0,
            self@.block_size >= word_bytes(),
    {
    }

    /// Block `b`'s bytes, block `b` lying inside the array.
    proof fn lemma_block_bytes(&self, b: nat)
        requires
            self.wf(),
            b < self.total_blocks,
        ensures
            b * self.block_size + self.block_size <= self.memory@.len(),
            self.block(b).len() == self.block_size,
            self.block(b).take(word_bytes() as int) == self.memory@.subrange(
                (b * self.block_size) as int,
                b * self.block_size + word_bytes(),
            ),
    {
        lemma_block_fits(self.block_size as nat, self.total_blocks as nat, b);
        assert(self.block(b).take(word_bytes() as int) =~= self.memory@.subrange(
            (b * self.block_size) as int,
            b * self.block_size + word_bytes(),
        ));
    }

    /// A pool of `total_blocks` blocks of `block_size` bytes each (at least the
    /// size of a `usize`), all of them free and linked in order.
    pub fn new(block_size: usize, total_blocks: usize) -> (pool: Self)
        requires
            block_size > 0,
            total_blocks > 0,
            (if block_size < word_bytes() { word_bytes() } else { block_size as nat })
                * total_blocks <= isize::MAX,
        ensures
            pool.wf(),
            pool@.block_size == if block_size < word_bytes() {
                word_bytes()
            } else {
                block_size as nat
            },
            pool@.capacity == total_blocks,
            pool@.in_use == 0,
            pool@.free == Seq::new(total_blocks as nat, |i: int| i as usize),
            forall|b: nat|
                b < total_blocks ==> #[trigger] pool.block(b).take(word_bytes() as int) == le_bytes(
                    initial_link(b, total_blocks as nat),
                    word_bytes(),
                ),
            forall|b: nat| b < total_blocks ==> #[trigger] pool.link(b) == initial_link(
                b,
                total_blocks as nat,
            ),
    {
        let word: usize = (usize::BITS / 8) as usize;
        let block_size: usize = if block_size < word { word } else { block_size };
        let ghost bs = block_size as nat;
        let ghost n = total_blocks as nat;
        let mut memory: Vec<u8> = vec![0u8; block_size * total_blocks];
        proof {
            lemma_word_span();
        }
        let mut i: usize = 0;
        while i < total_blocks
            invariant
                i <= total_blocks,
                bs == block_size,
                n == total_blocks,
                block_size >= word_bytes(),
                block_size * total_blocks <= isize::MAX,
                memory@.len() == block_size * total_blocks,
                byte_span(word_bytes()) == usize::MAX as nat + 1,
                forall|j: nat|
                    j < i ==> #[trigger] block_of(memory@, bs, j).take(word_bytes() as int)
                        == le_bytes(initial_link(j, n), word_bytes()),
            decreases total_blocks - i,
        {
            let next: usize = if i + 1 < total_blocks { i + 1 } else { usize::MAX };
            proof {
                lemma_block_fits(bs, n, i as nat);
                lemma_le_bytes_len(next as nat, word_bytes());
            }
            let ghost before = memory@;
            store_word(&mut memory, i * block_size, next);
            proof {
                lemma_other_blocks_kept(before, memory@, bs, n, i as nat);
                assert(block_of(memory@, bs, i as nat).take(word_bytes() as int) =~= le_bytes(
                    next as nat,
                    word_bytes(),
                ));
            }
            i = i + 1;
        }
        let ghost free = Seq::new(total_blocks as nat, |i: int| i as usize);
        let pool = MemoryPool {
            memory,
            block_size,
            total_blocks,
            free_list_head: Some(0),
            blocks_in_use: 0,
            free: Ghost(free),
        };
        assert forall|b: nat| b < total_blocks implies #[trigger] pool.link(b) == initial_link(
            b,
            n,
        ) by {
            assert(pool.block(b).take(word_bytes() as int) == le_bytes(
                initial_link(b, n),
                word_bytes(),
            ));
            lemma_le_roundtrip(initial_link(b, n), word_bytes());
        }
        assert forall|i: int| 0 <= i < free.len() - 1 implies pool.link(#[trigger] free[i] as nat)
            == free[i + 1] by {
            assert(pool.link(i as nat) == initial_link(i as nat, n));
        }
        assert(pool.link(free.last() as nat) == initial_link((n - 1) as nat, n));
        pool
    }

    /// Takes the block at the head of the free list and returns its index;
    /// the next free block becomes the head. `None` when the pool is
    /// exhausted. No byte of the pool changes.
    pub fn allocate(&mut self) -> (r: Option<usize>)
        requires
            old(self).wf(),
        ensures
            final(self).wf(),
            (final(self)@, r) == old(self)@.allocate(),
            forall|b: nat| b < old(self)@.capacity ==> #[trigger] final(self).block(b) == old(
                self,
            ).block(b),
    {
        let free_index = match self.free_list_head {
            None => return None,
            Some(i) => i,
        };
        proof {
            assert(self.free@[0] < self.total_blocks);
            self.lemma_block_bytes(free_index as nat);
        }
        let next_index = load_word(&self.memory, free_index * self.block_size);
        proof {
            if self.free@.len() > 1 {
                assert(self.link(self.free@[0] as nat) == self.free@[1]);
                assert(self.free@[1] < self.total_blocks);
            }
        }
        self.free_list_head = if next_index == usize::MAX {
            None
        } else {
            Some(next_index)
        };
        self.blocks_in_use = self.blocks_in_use + 1;
        let ghost old_free = self.free@;
        self.free = Ghost(old_free.drop_first());
        proof {
            assert forall|i: int| 0 <= i < self.free@.len() - 1 implies self.link(
                #[trigger] self.free@[i] as nat,
            ) == self.free@[i + 1] by {
                assert(self.free@[i] == old_free[i + 1]);
            }
            if self.free@.len() > 0 {
                assert(self.free@.last() == old_free.last());
            }
        }
        Some(free_index)
    }

    /// Returns block `block`, which the pool handed out: its first word
    /// records the current head of the free list, and it becomes the head.
    pub fn deallocate(&mut self, block: usize)
        requires
            old(self).wf(),
            old(self)@.is_allocated(block),
        ensures
            final(self).wf(),
            final(self)@ == old(self)@.deallocate(block),
            final(self).block(block as nat) == le_bytes(old(self)@.head_link(), word_bytes())
                + old(self).block(block as nat).skip(word_bytes() as int),
            forall|b: nat|
                b < old(self)@.capacity && b != block ==> #[trigger] final(self).block(b) == old(
                    self,
                ).block(b),
    {
        proof {
            lemma_free_list_short(self.free@, self.total_blocks as nat, block);
            self.lemma_block_bytes(block as nat);
            lemma_word_span();
        }
        let old_head: usize = match self.free_list_head {
            Some(h) => h,
            None => usize::MAX,
        };
        let ghost old_free = self.free@;
        let ghost old_mem = self.memory@;
        let ghost bs = self.block_size as nat;
        let ghost n = self.total_blocks as nat;
        store_word(&mut self.memory, block * self.block_size, old_head);
        self.free_list_head = Some(block);
        self.blocks_in_use = self.blocks_in_use - 1;
        self.free = Ghost(seq![block] + old_free);
        proof {
            lemma_other_blocks_kept(old_mem, self.memory@, bs, n, block as nat);
            lemma_le_roundtrip(old_head as nat, word_bytes());
            assert(self.block(block as nat) =~= le_bytes(old_head as nat, word_bytes()) + old(
                self,
            ).block(block as nat).skip(word_bytes() as int));
            assert(self.block(block as nat).take(word_bytes() as int) =~= le_bytes(
                old_head as nat,
                word_bytes(),
            ));
            assert forall|i: int| 0 <= i < self.free@.len() - 1 implies self.link(
                #[trigger] self.free@[i] as nat,
            ) == self.free@[i + 1] by {
                if i > 0 {
                    assert(self.free@[i] == old_free[i - 1]);
                    assert(old_free.contains(old_free[i - 1]));
                    assert(old_free[i - 1] != block);
                    assert(old_free[i - 1] < n);
                    assert(self.block(old_free[i - 1] as nat) == old(self).block(
                        old_free[i - 1] as nat,
                    ));
                }
            }
            assert forall|i: int, j: int|
                0 <= i < self.free@.len() && 0 <= j < self.free@.len() && i != j implies self.free@[i]
                != self.free@[j] by {
                if i == 0 {
                    assert(old_free.contains(self.free@[j]));
                } else if j == 0 {
                    assert(old_free.contains(self.free@[i]));
                }
            }
            if old_free.len() > 0 {
                assert(self.free@.last() == old_free.last());
                assert(old_free.contains(old_free.last()));
                assert(self.block(old_free.last() as nat) == old(self).block(
                    old_free.last() as nat,
                ));
            }
        }
    }

    /// Writes `data` into block `block`, which the pool handed out, starting
    /// `offset` bytes into it; no other block changes.
    pub fn write(&mut self, block: usize, offset: usize, data: &[u8])
        requires
            old(self).wf(),
            old(self)@.is_allocated(block),
            offset + data@.len() <= old(self)@.block_size,
        ensures
            final(self).wf(),
            final(self)@ == old(self)@,
            final(self).block(block as nat) == old(self).block(block as nat).take(offset as int)
                + data@ + old(self).block(block as nat).skip(offset + data@.len()),
            forall|b: nat|
                b < old(self)@.capacity && b != block ==> #[trigger] final(self).block(b) == old(
                    self,
                ).block(b),
    {
        proof {
            self.lemma_block_bytes(block as nat);
        }
        let base = block * self.block_size + offset;
        let ghost old_mem = self.memory@;
        let mut i: usize = 0;
        while i < data.len()
            invariant
                self.block_size == old(self).block_size,
                self.total_blocks == old(self).total_blocks,
                self.free_list_head == old(self).free_list_head,
                self@ == old(self)@,
                old_mem.len() <= isize::MAX,
                base == block * self.block_size + offset,
                base + data@.len() <= block * self.block_size + self.block_size,
                block * self.block_size + self.block_size <= old_mem.len(),
                i <= data@.len(),
                self.memory@.len() == old_mem.len(),
                forall|j: int|
                    0 <= j < old_mem.len() ==> #[trigger] self.memory@[j] == if base <= j < base
                        + i {
                        data@[j - base]
                    } else {
                        old_mem[j]
                    },
            decreases data@.len() - i,
        {
            self.memory.set(base + i, data[i]);
            i = i + 1;
        }
        proof {
            lemma_other_blocks_kept(
                old_mem,
                self.memory@,
                self.block_size as nat,
                self.total_blocks as nat,
                block as nat,
            );
            assert(self.block(block as nat) =~= old(self).block(block as nat).take(offset as int)
                + data@ + old(self).block(block as nat).skip(offset + data@.len()));
            assert forall|i: int| 0 <= i < self.free@.len() - 1 implies self.link(
                #[trigger] self.free@[i] as nat,
            ) == self.free@[i + 1] by {
                assert(self.free@.contains(self.free@[i]));
                assert(self.block(self.free@[i] as nat) == old(self).block(self.free@[i] as nat));
            }
            if self.free@.len() > 0 {
                assert(self.free@.contains(self.free@.last()));
                assert(self.block(self.free@.last() as nat) == old(self).block(
                    self.free@.last() as nat,
                ));
            }
        }
    }

    /// A copy of `len` bytes of block `block`, starting `offset` bytes into it.
    pub fn read(&self, block: usize, offset: usize, len: usize) -> (bytes: Vec<u8>)
        requires
            self.wf(),
            block < self@.capacity,
            offset + len <= self@.block_size,
        ensures
            bytes@ == self.block(block as nat).subrange(offset as int, offset + len),
    {
        proof {
            self.lemma_block_bytes(block as nat);
        }
        let base = block * self.block_size + offset;
        let mut out: Vec<u8> = Vec::new();
        let mut i: usize = 0;
        while i < len
            invariant
                self.wf(),
                base == block * self.block_size + offset,
                base + len <= self.memory@.len(),
                i <= len,
                out@ == self.memory@.subrange(base as int, base + i),
            decreases len - i,
        {
            out.push(self.memory[base + i]);
            assert(self.memory@.subrange(base as int, base + i + 1) =~= self.memory@.subrange(
                base as int,
                base + i,
            ).push(self.memory@[base + i]));
            i = i + 1;
        }
        assert(self.block(block as nat).subrange(offset as int, offset + len) =~= self.memory@.subrange(
            base as int,
            base + len,
        ));
        out
    }

    /// The number of blocks handed out.
    pub fn blocks_in_use(&self) -> (n: usize)
        requires
            self.wf(),
        ensures
            n == self@.in_use,
    {
        self.blocks_in_use
    }

    /// The number of blocks of the pool.
    pub fn capacity(&self) -> (n: usize)
        requires
            self.wf(),
        ensures
            n == self@.capacity,
    {
        self.total_blocks
    }

    /// The number of free blocks.
    pub fn available(&self) -> (n: usize)
        requires
            self.wf(),
        ensures
            n == self@.capacity - self@.in_use,
            n == self@.free.len(),
    {
        self.total_blocks - self.blocks_in_use
    }

    /// The size of each block in bytes.
    pub fn block_size(&self) -> (n: usize)
        requires
            self.wf(),
        ensures
            n == self@.block_size,
    {
        self.block_size
    }

    /// Whether every block is handed out.
    pub fn is_full(&self) -> (b: bool)
        requires
            self.wf(),
        ensures
            b == (self@.in_use == self@.capacity),
            b == (self@.free.len() == 0),
    {
        self.blocks_in_use == self.total_blocks
    }

    /// Whether no block is handed out.
    pub fn is_empty(&self) -> (b: bool)
        requires
            self.wf(),
        ensures
            b == (self@.in_use == 0),
    {
        self.blocks_in_use == 0
    }
}

} // verus!
