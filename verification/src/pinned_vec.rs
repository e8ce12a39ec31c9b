//! A growable sequence whose elements never move once stored.
//!
//! An ordinary `Vec` keeps its contents in one contiguous region and
//! relocates everything when it grows. `PinnedVec` instead keeps a list of
//! blocks of geometrically increasing capacity: block `b` holds `pow2(b)`
//! slots, so the element at zero-based position `i` lives in block
//! `log2(i + 1)` at offset `(i + 1) - pow2(log2(i + 1))`. Growth only ever
//! appends a fresh block; blocks already handed out are never resized or
//! copied, which is what keeps stored elements stable while the structure
//! grows and shrinks at the end.

use vstd::prelude::*;

verus! {

/// `2^b`.
pub open spec fn pow2(b: nat) -> nat
    decreases b,
{
    if b == 0 {
        1nat
    } else {
        2 * pow2((b - 1) as nat)
    }
}

/// Floor of the base-2 logarithm; `log2(0)` is taken as 0.
pub open spec fn log2(m: nat) -> nat
    decreases m,
{
    if m < 2 {
        0nat
    } else {
        log2(m / 2) + 1
    }
}

/// The block that holds flat index `i`.
pub open spec fn block_of(i: nat) -> nat {
    log2(i + 1)
}

/// The first flat index stored in block `b`: blocks `0..b` hold
/// `pow2(b) - 1` slots in total.
pub open spec fn block_start(b: nat) -> nat {
    (pow2(b) - 1) as nat
}

/// The slot inside its block where flat index `i` lives.
pub open spec fn offset_of(i: nat) -> nat {
    (i - block_start(block_of(i))) as nat
}

pub proof fn lemma_pow2_pos(b: nat)
    ensures
        pow2(b) >= 1,
    decreases b,
{
    if b > 0 {
        lemma_pow2_pos((b - 1) as nat);
    }
}

pub proof fn lemma_pow2_mono(a: nat, b: nat)
    requires
        a <= b,
    ensures
        pow2(a) <= pow2(b),
    decreases b,
{
    if a < b {
        lemma_pow2_mono(a, (b - 1) as nat);
        lemma_pow2_pos((b - 1) as nat);
    }
}

pub proof fn lemma_pow2_strict_mono(a: nat, b: nat)
    requires
        a < b,
    ensures
        pow2(a) < pow2(b),
{
    lemma_pow2_mono(a, (b - 1) as nat);
    lemma_pow2_pos(a);
}

/// `log2` is exact: `m` lies between `pow2(log2(m))` and `pow2(log2(m) + 1)`.
pub proof fn lemma_log2_bounds(m: nat)
    requires
        m >= 1,
    ensures
        pow2(log2(m)) <= m,
        m < pow2(log2(m) + 1),
    decreases m,
{
    if m >= 2 {
        lemma_log2_bounds(m / 2);
    }
}

pub proof fn lemma_log2_mono(a: nat, b: nat)
    requires
        a <= b,
    ensures
        log2(a) <= log2(b),
    decreases b,
{
    if a >= 2 {
        lemma_log2_mono(a / 2, b / 2);
    }
}

pub proof fn lemma_log2_le_self(m: nat)
    ensures
        log2(m) <= m,
    decreases m,
{
    if m >= 2 {
        lemma_log2_le_self(m / 2);
    }
}

/// Flat index `i` lies inside the slot range of its own block.
pub proof fn lemma_block_range(i: nat)
    ensures
        block_start(block_of(i)) <= i,
        i < block_start(block_of(i) + 1),
        offset_of(i) < pow2(block_of(i)),
{
    lemma_log2_bounds(i + 1);
}

/// The block holding `i` is determined by the slot ranges: if `i` falls in
/// block `b`'s range then `block_of(i) == b`.
pub proof fn lemma_block_of_unique(i: nat, b: nat)
    requires
        block_start(b) <= i,
        i < block_start(b + 1),
    ensures
        block_of(i) == b,
{
    lemma_block_range(i);
    let l = block_of(i);
    if l < b {
        lemma_pow2_mono(l + 1, b);
    }
    if b < l {
        lemma_pow2_mono(b + 1, l);
    }
}

/// Element `i + 1` sits either in the same block as `i` or in the next one.
pub proof fn lemma_block_of_step(i: nat)
    ensures
        block_of(i) <= block_of(i + 1) <= block_of(i) + 1,
{
    lemma_log2_mono(i + 1, i + 2);
    lemma_block_range(i);
    let b = block_of(i);
    if i + 1 < block_start(b + 1) {
        lemma_block_of_unique(i + 1, b);
    } else {
        lemma_pow2_strict_mono(b + 1, b + 2);
        lemma_block_of_unique(i + 1, b + 1);
    }
}

/// One block of fixed capacity. Its storage is allocated once and the block
/// is never grown past that capacity, so its elements never move.
struct Block<T> {
    vec: Vec<T>,
    cap: usize,
}

impl<T> Block<T> {
    fn new(capacity: usize) -> (blk: Self)
        ensures
            blk.vec@ =~= Seq::<T>::empty(),
            blk.cap == capacity,
    {
        Self { vec: Vec::with_capacity(capacity), cap: capacity }
    }

    fn get(&self, index: usize) -> (r: Option<&T>)
        ensures
            match r {
                Some(p) => index < self.vec@.len() && *p == self.vec@[index as int],
                None => index >= self.vec@.len(),
            },
    {
        if index < self.vec.len() {
            Some(&self.vec[index])
        } else {
            None
        }
    }

    fn at_mut(&mut self, index: usize) -> (p: &mut T)
        requires
            index < old(self).vec@.len(),
        ensures
            *p == old(self).vec@[index as int],
            final(self).vec@ == old(self).vec@.update(index as int, *final(p)),
            final(self).cap == old(self).cap,
    {
        &mut self.vec[index]
    }

    fn push(&mut self, item: T)
        requires
            old(self).vec@.len() < old(self).cap,
        ensures
            final(self).vec@ == old(self).vec@.push(item),
            final(self).cap == old(self).cap,
    {
        self.vec.push(item);
    }

    fn pop(&mut self)
        requires
            old(self).vec@.len() >= 1,
        ensures
            final(self).vec@ == old(self).vec@.drop_last(),
            final(self).cap == old(self).cap,
    {
        self.vec.truncate(self.vec.len() - 1);
        proof {
            assert(self.vec@ =~= old(self).vec@.drop_last());
        }
    }

    fn replace(&mut self, index: usize, item: T)
        requires
            index < old(self).vec@.len(),
        ensures
            final(self).vec@ == old(self).vec@.update(index as int, item),
            final(self).cap == old(self).cap,
    {
        let p = self.at_mut(index);
        *p = item;
    }
}

/// How many elements of a `PinnedVec` of length `len` live in block `b`.
spec fn seg_len(len: nat, b: nat) -> nat {
    if len <= block_start(b) {
        0nat
    } else if len >= block_start(b + 1) {
        pow2(b)
    } else {
        (len - block_start(b)) as nat
    }
}

/// Growable storage whose elements keep their place for their whole
/// lifetime: `push` only ever appends (possibly allocating a whole new
/// block), and `pop` only removes the last element, so the slot of every
/// other element is untouched.
pub struct PinnedVec<T> {
    blocks: Vec<Block<T>>,
    len: usize,
}

impl<T> View for PinnedVec<T> {
    type V = Seq<T>;

    closed spec fn view(&self) -> Seq<T> {
        Seq::new(
            self.len as nat,
            |i: int| self.blocks@[block_of(i as nat) as int].vec@[offset_of(i as nat) as int],
        )
    }
}

impl<T> PinnedVec<T> {
    /// Structural invariant: every allocated block `b` has its fixed
    /// capacity `pow2(b)` and holds exactly the elements that a sequence of
    /// length `len` places in it, and enough blocks exist to hold all `len`
    /// elements.
    pub closed spec fn wf(&self) -> bool {
        &&& forall|b: int|
            0 <= b < self.blocks@.len() ==> (#[trigger] self.blocks@[b]).cap == pow2(b as nat)
        &&& forall|b: int|
            0 <= b < self.blocks@.len() ==> (#[trigger] self.blocks@[b]).vec@.len() == seg_len(
                self.len as nat,
                b as nat,
            )
        &&& self.len > 0 ==> self.blocks@.len() > block_of((self.len - 1) as nat)
        &&& pow2(self.blocks@.len() as nat) <= usize::MAX as nat + 1
    }

    /// The number of blocks currently allocated.
    pub closed spec fn num_blocks(&self) -> nat {
        self.blocks@.len() as nat
    }

    /// Total slots allocated across all blocks.
    pub open spec fn spec_capacity(&self) -> nat {
        (pow2(self.num_blocks()) - 1) as nat
    }

    /// What reading index `i` yields: the stored element below the length,
    /// absent at or above it.
    pub open spec fn spec_get(&self, i: int) -> Option<T> {
        if 0 <= i < self@.len() {
            Some(self@[i])
        } else {
            None
        }
    }

    /// Compute `block_of(index)` by repeated halving of `index + 1`.
    fn outter_idx(index: usize) -> (b: usize)
        requires
            index < usize::MAX,
        ensures
            b as nat == block_of(index as nat),
            pow2(b as nat) <= index as nat + 1,
    {
        let m: usize = index + 1;
        let mut v: usize = m;
        let mut b: usize = 0;
        proof {
            lemma_log2_bounds(m as nat);
            lemma_log2_le_self(m as nat);
        }
        while v >= 2
            invariant
                1 <= v <= m,
                b as nat + log2(v as nat) == log2(m as nat),
                log2(m as nat) <= m as nat,
                m <= usize::MAX,
            decreases v,
        {
            v = v / 2;
            b = b + 1;
        }
        b
    }

    /// Compute `pow2(b)` by repeated doubling.
    fn pow2_exec(b: usize) -> (p: usize)
        requires
            pow2(b as nat) <= usize::MAX as nat,
        ensures
            p as nat == pow2(b as nat),
    {
        let mut p: usize = 1;
        let mut j: usize = 0;
        while j < b
            invariant
                j <= b,
                p as nat == pow2(j as nat),
                pow2(b as nat) <= usize::MAX as nat,
            decreases b - j,
        {
            proof {
                lemma_pow2_mono(j as nat + 1, b as nat);
            }
            p = p * 2;
            j = j + 1;
        }
        p
    }

    /// Split a flat index into its block number and the offset inside that
    /// block.
    fn split_idx(index: usize) -> (r: (usize, usize))
        requires
            index < usize::MAX,
        ensures
            r.0 as nat == block_of(index as nat),
            r.1 as nat == offset_of(index as nat),
    {
        let b = Self::outter_idx(index);
        let p = Self::pow2_exec(b);
        proof {
            lemma_block_range(index as nat);
        }
        (b, index + 1 - p)
    }

    /// Create a new, empty `PinnedVec`. Does not allocate.
    pub fn new() -> (v: Self)
        ensures
            v.wf(),
            v@ =~= Seq::<T>::empty(),
    {
        Self { blocks: Vec::new(), len: 0 }
    }

    /// The number of elements currently stored.
    pub fn len(&self) -> (n: usize)
        ensures
            n == self@.len(),
    {
        self.len
    }

    /// Total slots allocated across all blocks. Pushing within capacity
    /// allocates nothing; pushing past it allocates one new block.
    pub fn capacity(&self) -> (c: usize)
        requires
            self.wf(),
        ensures
            c as nat == self.spec_capacity(),
            self@.len() <= c as nat,
    {
        let n = self.blocks.len();
        let mut c: usize = 0;
        let mut j: usize = 0;
        while j < n
            invariant
                j <= n,
                n == self.num_blocks(),
                c as nat + 1 == pow2(j as nat),
                pow2(n as nat) <= usize::MAX as nat + 1,
            decreases n - j,
        {
            proof {
                lemma_pow2_mono(j as nat + 1, n as nat);
            }
            c = c * 2 + 1;
            j = j + 1;
        }
        proof {
            if self.len > 0 {
                lemma_block_range((self.len - 1) as nat);
                lemma_pow2_mono(block_of((self.len - 1) as nat) + 1, self.num_blocks());
            }
        }
        c
    }

    /// Read the element at `index`, if `index` is below the length.
    pub fn get(&self, index: usize) -> (r: Option<&T>)
        requires
            self.wf(),
        ensures
            match r {
                Some(p) => self.spec_get(index as int) == Some(*p) && index < self@.len() && *p
                    == self@[index as int],
                None => self.spec_get(index as int) is None && index >= self@.len(),
            },
    {
        if index >= self.len {
            None
        } else {
            let (b, off) = Self::split_idx(index);
            proof {
                self.lemma_slot_in_range(index as nat);
            }
            let blk = &self.blocks[b];
            let item = blk.get(off).unwrap();
            Some(item)
        }
    }

    /// Borrow the element at `index` mutably, if `index` is below the
    /// length. Writing through the returned reference updates exactly that
    /// element and no other.
    pub fn get_mut(&mut self, index: usize) -> (r: Option<&mut T>)
        requires
            old(self).wf(),
        ensures
            final(self).wf(),
            match r {
                Some(p) => {
                    &&& index < old(self)@.len()
                    &&& *p == old(self)@[index as int]
                    &&& final(self)@ == old(self)@.update(index as int, *final(p))
                },
                None => index >= old(self)@.len() && *final(self) == *old(self),
            },
    {
        if index >= self.len {
            None
        } else {
            let (b, off) = Self::split_idx(index);
            proof {
                old(self).lemma_slot_in_range(index as nat);
            }
            let blk = &mut self.blocks[b];
            let p = blk.at_mut(off);
            proof {
                old(self).lemma_view_after_elem_update(after_borrow(*self), index as nat, *final(p));
            }
            Some(p)
        }
    }

    /// Append one element at the end. May allocate one new block (capacity
    /// doubling) but never touches the storage of existing blocks.
    pub fn push(&mut self, item: T)
        requires
            old(self).wf(),
            old(self)@.len() < usize::MAX as nat / 2,
        ensures
            final(self).wf(),
            final(self)@ == old(self)@.push(item),
    {
        let b = Self::outter_idx(self.len);
        proof {
            lemma_block_range(self.len as nat);
            if self.len > 0 {
                lemma_block_of_step((self.len - 1) as nat);
                lemma_block_range((self.len - 1) as nat);
            }
        }
        if self.blocks.len() <= b {
            let cap = Self::pow2_exec(b);
            let new_block = Block::new(cap);
            self.blocks.push(new_block);
            proof {
                lemma_pow2_strict_mono(b as nat, b as nat + 1);
                assert forall|k: int| 0 <= k < self.blocks@.len() implies (
                #[trigger] self.blocks@[k]).vec@.len() == seg_len(self.len as nat, k as nat) by {}
                assert(self@ =~= old(self)@) by {
                    assert forall|i: int| 0 <= i < self.len implies self@[i] == old(self)@[i] by {
                        old(self).lemma_slot_in_range(i as nat);
                    }
                }
            }
        }
        let ghost pre = *self;
        proof {
            assert(pre.wf());
        }
        let blk = &mut self.blocks[b];
        blk.push(item);
        self.len = self.len + 1;
        proof {
            pre.lemma_view_after_push(*self, item);
        }
    }

    /// Remove the last element. The element is not handed back: removal
    /// must not require moving a possibly self-referential value out.
    pub fn pop(&mut self)
        requires
            old(self).wf(),
            old(self)@.len() >= 1,
        ensures
            final(self).wf(),
            final(self)@ == old(self)@.drop_last(),
            final(self).spec_capacity() == old(self).spec_capacity(),
    {
        self.len = self.len - 1;
        let b = Self::outter_idx(self.len);
        proof {
            lemma_block_range(self.len as nat);
        }
        let blk = &mut self.blocks[b];
        blk.pop();
        proof {
            old(self).lemma_view_after_pop(*self);
        }
    }

    /// Overwrite the element at `index` with another one. The old element
    /// is not handed back, for the same reason `pop` returns nothing.
    pub fn replace(&mut self, index: usize, item: T)
        requires
            old(self).wf(),
            index < old(self)@.len(),
        ensures
            final(self).wf(),
            final(self)@ == old(self)@.update(index as int, item),
            final(self).spec_capacity() == old(self).spec_capacity(),
    {
        let (b, off) = Self::split_idx(index);
        proof {
            old(self).lemma_slot_in_range(index as nat);
        }
        let blk = &mut self.blocks[b];
        blk.replace(off, item);
        proof {
            old(self).lemma_view_after_elem_update(*self, index as nat, item);
        }
    }

    /// A valid index lies in an allocated block, below that block's fill.
    proof fn lemma_slot_in_range(&self, i: nat)
        requires
            self.wf(),
            i < self.len,
        ensures
            block_of(i) < self.blocks@.len(),
            offset_of(i) < self.blocks@[block_of(i) as int].vec@.len(),
            offset_of(i) < pow2(block_of(i)),
            self@[i as int] == self.blocks@[block_of(i) as int].vec@[offset_of(i) as int],
    {
        lemma_block_range(i);
        lemma_log2_mono(i + 1, self.len as nat);
        lemma_block_range((self.len - 1) as nat);
    }

    /// Updating one stored element in place changes the view at exactly
    /// that index.
    proof fn lemma_view_after_elem_update(&self, post: Self, i: nat, x: T)
        requires
            self.wf(),
            i < self.len,
            post.len == self.len,
            post.blocks@.len() == self.blocks@.len(),
            forall|k: int|
                0 <= k < self.blocks@.len() && k != block_of(i) as int ==> post.blocks@[k]
                    == self.blocks@[k],
            post.blocks@[block_of(i) as int].cap == self.blocks@[block_of(i) as int].cap,
            post.blocks@[block_of(i) as int].vec@ == self.blocks@[block_of(i) as int].vec@.update(
                offset_of(i) as int,
                x,
            ),
        ensures
            post.wf(),
            post@ == self@.update(i as int, x),
    {
        self.lemma_slot_in_range(i);
        assert forall|k: int| 0 <= k < post.blocks@.len() implies (
        #[trigger] post.blocks@[k]).cap == pow2(k as nat) && post.blocks@[k].vec@.len() == seg_len(
            post.len as nat,
            k as nat,
        ) by {}
        assert forall|j: int| 0 <= j < post.len implies post@[j] == self@.update(i as int, x)[
        j] by {
            self.lemma_slot_in_range(j as nat);
            post.lemma_slot_in_range(j as nat);
            if j != i as int && block_of(j as nat) == block_of(i) {
                lemma_block_range(j as nat);
                lemma_block_range(i);
            }
        }
        assert(post@ =~= self@.update(i as int, x));
    }

    /// Appending at the end of the last partly-filled block extends the
    /// view by exactly that element.
    proof fn lemma_view_after_push(&self, post: Self, x: T)
        requires
            self.wf(),
            self.len < usize::MAX as nat / 2,
            self.blocks@.len() > block_of(self.len as nat),
            post.len == self.len + 1,
            post.blocks@.len() == self.blocks@.len(),
            forall|k: int|
                0 <= k < self.blocks@.len() && k != block_of(self.len as nat) as int
                    ==> post.blocks@[k] == self.blocks@[k],
            post.blocks@[block_of(self.len as nat) as int].cap == self.blocks@[block_of(
                self.len as nat,
            ) as int].cap,
            post.blocks@[block_of(self.len as nat) as int].vec@ == self.blocks@[block_of(
                self.len as nat,
            ) as int].vec@.push(x),
        ensures
            post.wf(),
            post@ == self@.push(x),
    {
        let n = self.len as nat;
        let b = block_of(n);
        lemma_block_range(n);
        assert forall|k: int| 0 <= k < post.blocks@.len() implies (
        #[trigger] post.blocks@[k]).vec@.len() == seg_len(post.len as nat, k as nat) by {
            if k == b as int {
                assert(seg_len(n, b) == n - block_start(b));
                assert(seg_len(n + 1, b) == n + 1 - block_start(b));
            } else {
                lemma_seg_len_same_outside(n, k as nat);
            }
        }
        assert(post.wf());
        assert forall|j: int| 0 <= j < post.len implies post@[j] == self@.push(x)[j] by {
            post.lemma_slot_in_range(j as nat);
            if j < n {
                self.lemma_slot_in_range(j as nat);
                if block_of(j as nat) == b {
                    lemma_block_range(j as nat);
                }
            }
        }
        assert(post@ =~= self@.push(x));
    }

    /// Dropping the last element of its block shortens the view by one.
    proof fn lemma_view_after_pop(&self, post: Self)
        requires
            self.wf(),
            self.len >= 1,
            post.len == self.len - 1,
            post.blocks@.len() == self.blocks@.len(),
            forall|k: int|
                0 <= k < self.blocks@.len() && k != block_of((self.len - 1) as nat) as int
                    ==> post.blocks@[k] == self.blocks@[k],
            post.blocks@[block_of((self.len - 1) as nat) as int].cap == self.blocks@[block_of(
                (self.len - 1) as nat,
            ) as int].cap,
            post.blocks@[block_of((self.len - 1) as nat) as int].vec@ == self.blocks@[block_of(
                (self.len - 1) as nat,
            ) as int].vec@.drop_last(),
        ensures
            post.wf(),
            post@ == self@.drop_last(),
    {
        let n = (self.len - 1) as nat;
        let b = block_of(n);
        lemma_block_range(n);
        self.lemma_slot_in_range(n);
        assert forall|k: int| 0 <= k < post.blocks@.len() implies (
        #[trigger] post.blocks@[k]).vec@.len() == seg_len(post.len as nat, k as nat) by {
            if k == b as int {
                assert(seg_len(n, b) == if n <= block_start(b) {
                    0nat
                } else {
                    (n - block_start(b)) as nat
                });
                assert(seg_len(n + 1, b) == n + 1 - block_start(b));
            } else {
                lemma_seg_len_same_outside(n, k as nat);
            }
        }
        if post.len > 0 {
            lemma_log2_mono(n, n + 1);
            lemma_block_range((n - 1) as nat);
        }
        assert(post.wf());
        assert forall|j: int| 0 <= j < post.len implies post@[j] == self@[j] by {
            self.lemma_slot_in_range(j as nat);
            post.lemma_slot_in_range(j as nat);
            if block_of(j as nat) == b {
                lemma_block_range(j as nat);
            }
        }
        assert(post@ =~= self@.drop_last());
    }
}

/// Law (address stability): a reading of index `i` obtained before a later
/// `push` is unchanged by that `push` — the new element lands in a fresh
/// slot and every already-stored element keeps both its slot and its value.
pub proof fn lemma_get_stable_under_push<T>(pre: PinnedVec<T>, post: PinnedVec<T>, item: T, i: int)
    requires
        post@ == pre@.push(item),
        0 <= i < pre@.len(),
    ensures
        post.spec_get(i) == pre.spec_get(i),
        post.spec_get(i) == Some(pre@[i]),
{
}

/// Law (address stability): popping the last element leaves every reading
/// below the new length unchanged.
pub proof fn lemma_get_stable_under_pop<T>(pre: PinnedVec<T>, post: PinnedVec<T>, i: int)
    requires
        post@ == pre@.drop_last(),
        0 <= i < pre@.len() - 1,
    ensures
        post.spec_get(i) == pre.spec_get(i),
        post.spec_get(i) == Some(pre@[i]),
{
}

/// Law (round trip): every index below the length reads back exactly the
/// value the view holds there, and reading at or past the length is always
/// absent.
pub proof fn lemma_round_trip<T>(v: PinnedVec<T>, i: int)
    ensures
        0 <= i < v@.len() ==> v.spec_get(i) == Some(v@[i]),
        i >= v@.len() ==> v.spec_get(i) is None,
{
}

/// Segment lengths in blocks other than the one holding index `len` do not
/// change when the length moves between `len` and `len + 1`.
proof fn lemma_seg_len_same_outside(len: nat, k: nat)
    requires
        k != block_of(len),
    ensures
        seg_len(len, k) == seg_len(len + 1, k),
{
    lemma_block_range(len);
    if k < block_of(len) {
        lemma_pow2_mono(k + 1, block_of(len));
    } else {
        lemma_pow2_mono(block_of(len) + 1, k);
    }
}

} // verus!
