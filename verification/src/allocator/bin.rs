//! A buddy allocator: free blocks of `2^k` bytes are kept in list `k`; a
//! block is split into two buddies when a smaller one is needed, and two free
//! buddies are merged again when the second is returned.

use vstd::prelude::*;
use crate::allocator::util::{block_size, lemma_block_size, lemma_block_size_multiple, size_of_class, CLASSES};

verus! {

/// The smallest size class that is handed out: a block holds a machine word
/// at least.
pub const MIN_CLASS: usize = 3;

/// The size of a machine word in bytes.
pub const WORD_SIZE: usize = 8;

/// The length in bytes that a region must stay below for 32 size classes to
/// manage it: twice the size of the largest block.
pub const REGION_LIMIT: u64 = 0x1_0000_0000;

/// What is asked of a block of memory: its size in bytes and the alignment of
/// its address, which is a power of two.
#[derive(Clone, Copy, Debug, PartialEq, Eq, Structural)]
pub struct Layout {
    pub size: usize,
    pub align: usize,
}

/// The allocator has no block that is large enough.
#[derive(Clone, Copy, Debug, PartialEq, Eq, Structural)]
pub struct AllocErr;

/// The smallest class from `class` on whose blocks have `size` bytes and are
/// as large as `align`; 32 if there is none.
pub open spec fn class_from(size: int, align: int, class: nat) -> nat
    decreases 32 - class,
{
    if class < 32 && (block_size(class) < size || block_size(class) < align) {
        class_from(size, align, class + 1)
    } else {
        class
    }
}

/// The size class of a layout: the smallest class of at least a machine word
/// whose blocks have `layout.size` bytes and are as large as `layout.align`;
/// 32 if there is none.
pub open spec fn class_of(layout: Layout) -> nat {
    class_from(layout.size as int, layout.align as int, MIN_CLASS as nat)
}

/// The class of the block that is cut at the address `current` of a region
/// that ends at `end`: the greatest class from `class` on, up to class 31,
/// whose blocks start at a multiple of their size at `current` and do not
/// reach beyond `end`.
pub open spec fn cut_class(current: int, end: int, class: nat) -> nat
    decreases 31 - class,
{
    if class < 31 && current % block_size(class + 1) == 0 && block_size(class + 1) <= end
        - current {
        cut_class(current, end, class + 1)
    } else {
        class
    }
}

/// The free lists `free` after the rest of a region, from `current` to
/// `end`, has been cut into blocks: as long as a machine word is left, the
/// largest block that starts at a multiple of its size and still fits goes to
/// the free list of its class.
pub open spec fn cut(free: Seq<Seq<usize>>, current: int, end: int) -> Seq<Seq<usize>>
    decreases end - current,
    via cut_decreases
{
    if current + WORD_SIZE > end || current < 0 {
        free
    } else {
        let class = cut_class(current, end, 0);
        cut(
            free.update(class as int, free[class as int].push(current as usize)),
            current + block_size(class),
            end,
        )
    }
}

#[via_fn]
proof fn cut_decreases(free: Seq<Seq<usize>>, current: int, end: int) {
    if !(current + WORD_SIZE > end || current < 0) {
        lemma_block_size(0);
        lemma_cut_class(current, end, 0);
    }
}

/// The block that is cut at an address starts at a multiple of its size and
/// does not reach beyond the end of the region.
pub proof fn lemma_cut_class(current: int, end: int, class: nat)
    requires
        block_size(class) <= end - current,
        current % block_size(class) == 0,
        class <= 31,
    ensures
        class <= cut_class(current, end, class) <= 31,
        0 < block_size(cut_class(current, end, class)) <= end - current,
        current % block_size(cut_class(current, end, class)) == 0,
    decreases 31 - class,
{
    lemma_block_size(class);
    if class < 31 && current % block_size(class + 1) == 0 && block_size(class + 1) <= end
        - current {
        lemma_cut_class(current, end, class + 1);
    }
}

/// 32 empty free lists.
pub open spec fn no_blocks() -> Seq<Seq<usize>> {
    Seq::new(CLASSES as nat, |k: int| Seq::<usize>::empty())
}

/// The first class from `class` on whose free list is not empty; 32 if there
/// is none.
pub open spec fn first_stocked(free: Seq<Seq<usize>>, class: nat) -> nat
    decreases 32 - class,
{
    if class < 32 && free[class as int].len() == 0 {
        first_stocked(free, class + 1)
    } else {
        class
    }
}

/// The free lists once a block of class `class` has been taken from `free`.
///
/// The block comes from the end of the list of the first stocked class from
/// `class` on. If that class is larger, the block is halved down to
/// `class`, and each upper half goes to the list of its class, which was
/// empty.
pub open spec fn carved(free: Seq<Seq<usize>>, class: nat) -> Seq<Seq<usize>> {
    let source = first_stocked(free, class) as int;
    let addr = free[source].last();
    Seq::new(
        free.len(),
        |k: int|
            if k == source {
                free[k].drop_last()
            } else if class <= k < source {
                seq![(addr + block_size(k as nat)) as usize]
            } else {
                free[k]
            },
    )
}

/// Whether the blocks of classes `c1` at `a1` and `c2` at `a2` share a byte.
pub open spec fn overlap(c1: nat, a1: int, c2: nat, a2: int) -> bool {
    a1 < a2 + block_size(c2) && a2 < a1 + block_size(c1)
}

/// The address of the buddy of the block of class `class` at `addr`: the
/// other half of the block of the next class that holds both, which is `addr`
/// with bit `class` flipped.
pub open spec fn buddy_of(class: nat, addr: int) -> int {
    if (addr / block_size(class)) % 2 == 0 {
        addr + block_size(class)
    } else {
        addr - block_size(class)
    }
}

/// The free lists after the block of class `class` at `addr` has come back:
/// as long as the buddy of the block is in the free list of its class, the
/// buddy leaves the list and the two make a block of the next class; the
/// block that is left at the end goes to the free list of its class.
pub open spec fn coalesced(free: Seq<Seq<usize>>, class: nat, addr: int) -> Seq<Seq<usize>>
    decreases 32 - class,
{
    let buddy = buddy_of(class, addr);
    if class < 31 && 0 <= buddy <= usize::MAX && free[class as int].contains(buddy as usize) {
        let low = if addr < buddy {
            addr
        } else {
            buddy
        };
        coalesced(
            free.update(
                class as int,
                free[class as int].remove(free[class as int].index_of(buddy as usize)),
            ),
            class + 1,
            low,
        )
    } else {
        free.update(class as int, free[class as int].push(addr as usize))
    }
}

/// The bytes held in the first `classes` of the free lists `free`.
pub open spec fn free_bytes(free: Seq<Seq<usize>>, classes: nat) -> int
    decreases classes,
{
    if classes == 0 {
        0
    } else {
        free_bytes(free, (classes - 1) as nat) + free[classes - 1].len() * block_size(
            (classes - 1) as nat,
        )
    }
}

/// The bytes of the blocks handed out at addresses below `limit`.
pub open spec fn held_bytes(held: Map<int, nat>, limit: int) -> int
    decreases limit,
{
    if limit <= 0 {
        0
    } else {
        held_bytes(held, limit - 1) + if held.contains_key(limit - 1) {
            block_size(held[limit - 1])
        } else {
            0
        }
    }
}

/// The bytes handed out are never negative, and nothing is handed out where
/// no block is held.
proof fn lemma_held_bytes_nonnegative(held: Map<int, nat>, limit: int)
    ensures
        held_bytes(held, limit) >= 0,
        (forall|addr: int| !held.contains_key(addr)) ==> held_bytes(held, limit) == 0,
    decreases limit,
{
    if limit > 0 {
        lemma_held_bytes_nonnegative(held, limit - 1);
        if held.contains_key(limit - 1) {
            lemma_block_size(held[limit - 1]);
        }
    }
}

/// Handing out one more block adds its size to the bytes handed out, and
/// taking one back takes its size away.
proof fn lemma_held_bytes_change(held: Map<int, nat>, addr: int, class: nat, limit: int)
    requires
        0 <= addr,
    ensures
        !held.contains_key(addr) ==> held_bytes(held.insert(addr, class), limit) == held_bytes(
            held,
            limit,
        ) + if addr < limit {
            block_size(class)
        } else {
            0
        },
        held.contains_key(addr) && held[addr] == class ==> held_bytes(held.remove(addr), limit)
            == held_bytes(held, limit) - if addr < limit {
            block_size(class)
        } else {
            0
        },
    decreases limit,
{
    if limit > 0 {
        lemma_held_bytes_change(held, addr, class, limit - 1);
    }
}

/// Changing the length of one list changes the bytes held by that many
/// blocks of its class.
proof fn lemma_free_bytes_update(
    free: Seq<Seq<usize>>,
    class: int,
    list: Seq<usize>,
    classes: nat,
)
    requires
        0 <= class < free.len(),
        classes <= free.len(),
    ensures
        free_bytes(free.update(class, list), classes) == free_bytes(free, classes) + if class
            < classes {
            (list.len() - free[class].len()) * block_size(class as nat)
        } else {
            0
        },
    decreases classes,
{
    if classes > 0 {
        lemma_free_bytes_update(free, class, list, (classes - 1) as nat);
        let size = block_size((classes - 1) as nat);
        if class == classes - 1 {
            assert(list.len() * size == free[class].len() * size + (list.len() - free[class].len())
                * size) by (nonlinear_arith);
        }
    }
}

/// The bytes held in free lists are never negative.
proof fn lemma_free_bytes_nonnegative(free: Seq<Seq<usize>>, classes: nat)
    ensures
        free_bytes(free, classes) >= 0,
    decreases classes,
{
    if classes > 0 {
        lemma_free_bytes_nonnegative(free, (classes - 1) as nat);
        lemma_block_size((classes - 1) as nat);
        let n = free[classes - 1].len();
        let size = block_size((classes - 1) as nat);
        assert(n * size >= 0) by (nonlinear_arith)
            requires
                n >= 0,
                size > 0,
        ;
    }
}

/// A block that is aligned to its size lies in one half of the block of the
/// next class that holds it; its buddy is the other half, and the two
/// together are that block.
pub proof fn lemma_buddy(class: nat, addr: int)
    requires
        addr >= 0,
        addr % block_size(class) == 0,
    ensures
        buddy_of(class, addr) % block_size(class) == 0,
        buddy_of(class, buddy_of(class, addr)) == addr,
        buddy_of(class, addr) != addr,
        ({
            let low = if addr < buddy_of(class, addr) {
                addr
            } else {
                buddy_of(class, addr)
            };
            &&& low % block_size(class + 1) == 0
            &&& low >= 0
            &&& low + block_size(class) == if addr < buddy_of(class, addr) {
                buddy_of(class, addr)
            } else {
                addr
            }
        }),
{
    lemma_block_size(class);
    let size = block_size(class);
    let q = addr / size;
    vstd::arithmetic::div_mod::lemma_fundamental_div_mod(addr, size);
    assert(addr == size * q);
    if q % 2 == 0 {
        let h = q / 2;
        assert(q == 2 * h);
        assert(addr + size == size * (q + 1) && addr == (2 * size) * h) by (nonlinear_arith)
            requires
                addr == size * q,
                q == 2 * h,
        ;
        vstd::arithmetic::div_mod::lemma_fundamental_div_mod_converse(addr + size, size, q + 1, 0);
        vstd::arithmetic::div_mod::lemma_fundamental_div_mod_converse(addr, 2 * size, h, 0);
    } else {
        let h = q / 2;
        assert(q == 2 * h + 1);
        assert(q >= 1) by (nonlinear_arith)
            requires
                addr == size * q,
                addr >= 0,
                size > 0,
                q % 2 != 0,
        ;
        assert(addr - size == size * (q - 1) && addr - size == (2 * size) * h) by (nonlinear_arith)
            requires
                addr == size * q,
                q == 2 * h + 1,
        ;
        vstd::arithmetic::div_mod::lemma_fundamental_div_mod_converse(addr - size, size, q - 1, 0);
        vstd::arithmetic::div_mod::lemma_fundamental_div_mod_converse(addr - size, 2 * size, h, 0);
        assert(h >= 0);
    }
}

/// An address that is a multiple of the size of a class is a multiple of the
/// size of every smaller class.
pub proof fn lemma_aligned_to_smaller(addr: int, small: nat, large: nat)
    requires
        small <= large,
        addr % block_size(large) == 0,
    ensures
        addr % block_size(small) == 0,
{
    lemma_block_size(small);
    lemma_block_size(large);
    lemma_block_size_multiple(small, large);
    let s = block_size(small);
    let l = block_size(large);
    let m = block_size((large - small) as nat);
    vstd::arithmetic::div_mod::lemma_fundamental_div_mod(addr, l);
    let q = addr / l;
    assert(addr == s * (m * q)) by (nonlinear_arith)
        requires
            addr == l * q,
            l == s * m,
    ;
    vstd::arithmetic::div_mod::lemma_fundamental_div_mod_converse(addr, s, m * q, 0);
}

/// A simple allocator that allocates based on size classes.
pub struct Allocator {
    free_list: Vec<Vec<usize>>,
    allocated: usize,
    total: usize,
    held: Ghost<Map<int, nat>>,
    region: Ghost<(int, int)>,
}

impl Allocator {
    /// The free lists: list `k` holds the addresses of the free blocks of
    /// `2^k` bytes, the one that is taken next last.
    pub closed spec fn free(&self) -> Seq<Seq<usize>> {
        Seq::new(self.free_list@.len(), |k: int| self.free_list@[k]@)
    }

    /// The blocks that were handed out and not returned: the class of each,
    /// by its address.
    pub closed spec fn held(&self) -> Map<int, nat> {
        self.held@
    }

    /// The memory that the allocator manages: its first address and the
    /// address behind its last.
    pub closed spec fn region(&self) -> (int, int) {
        self.region@
    }

    /// The number of bytes in blocks that were handed out and not returned.
    pub closed spec fn allocated(&self) -> int {
        self.allocated as int
    }

    /// The number of bytes that the allocator manages.
    pub closed spec fn total(&self) -> int {
        self.total as int
    }

    /// Whether a block of class `class` at `addr` is in a free list.
    pub open spec fn is_free(&self, class: nat, addr: int) -> bool {
        class < self.free().len() && exists|i: int|
            0 <= i < self.free()[class as int].len() && #[trigger] self.free()[class as int][i]
                == addr
    }

    /// Whether a block of class `class` at `addr` is handed out.
    pub open spec fn is_held(&self, class: nat, addr: int) -> bool {
        self.held().contains_key(addr) && self.held()[addr] == class
    }

    /// Whether a block of class `class` at `addr` exists: in a free list,
    /// handed out, or in the hand of an operation under way.
    pub open spec fn is_block(&self, hand: Option<(nat, int)>, class: nat, addr: int) -> bool {
        self.is_free(class, addr) || self.is_held(class, addr) || hand == Some((class, addr))
    }

    /// Whether the byte at `x` lies in a block.
    pub open spec fn covered(&self, hand: Option<(nat, int)>, x: int) -> bool {
        exists|class: nat, addr: int| #[trigger]
            self.is_block(hand, class, addr) && addr <= x < addr + block_size(class)
    }

    /// The number of bytes in the hand of an operation under way.
    pub open spec fn hand_bytes(hand: Option<(nat, int)>) -> int {
        match hand {
            Some((class, _)) => block_size(class),
            None => 0,
        }
    }

    /// The invariant of the allocator while an operation holds the block
    /// `hand` in its hand.
    pub open spec fn inv(&self, hand: Option<(nat, int)>) -> bool {
        &&& self.free().len() == CLASSES
        &&& 0 < self.region().0
        &&& self.region().1 - self.region().0 < REGION_LIMIT
        &&& self.region().1 <= usize::MAX
        &&& forall|k: int| 0 <= k < CLASSES ==> (#[trigger] self.free()[k]).no_duplicates()
        &&& forall|class: nat, addr: int| #[trigger]
            self.is_block(hand, class, addr) ==> {
                &&& class < CLASSES
                &&& addr % block_size(class) == 0
                &&& self.region().0 <= addr
                &&& addr + block_size(class) <= self.region().1
            }
        &&& forall|class: nat, addr: int|
            !(#[trigger] self.is_free(class, addr) && self.is_held(class, addr))
        &&& forall|class: nat, addr: int|
            hand == Some((class, addr)) ==> !self.is_free(class, addr) && !self.is_held(class, addr)
        &&& forall|c1: nat, a1: int, c2: nat, a2: int|
            #[trigger] self.is_block(hand, c1, a1) && #[trigger] self.is_block(hand, c2, a2) && (c1
                != c2 || a1 != a2) ==> !overlap(c1, a1, c2, a2)
        &&& forall|x: int|
            self.region().0 <= x < self.region().1 ==> #[trigger] self.covered(hand, x)
        &&& forall|class: nat, a1: int, a2: int|
            #[trigger] self.is_free(class, a1) && #[trigger] self.is_free(class, a2) ==> buddy_of(
                class,
                a1,
            ) != a2
        &&& forall|addr: int| #[trigger]
            self.held().contains_key(addr) ==> self.held()[addr] >= MIN_CLASS
        &&& free_bytes(self.free(), CLASSES as nat) + self.allocated() + Self::hand_bytes(hand)
            == self.total()
        &&& self.allocated() == held_bytes(self.held(), self.region().1)
        &&& self.total() == self.region().1 - self.region().0
    }

    /// The invariant of the allocator.
    ///
    /// Every block, free or handed out, lies in the managed memory at an
    /// address that is a multiple of its size. No two blocks share a byte, and
    /// every byte of the managed memory lies in a block: the blocks handed
    /// out cover exactly the bytes that are in no free list. The two buddies
    /// of a block are never both in a free list. The bytes in free lists and
    /// the bytes handed out add up to the bytes managed.
    pub open spec fn wf(&self) -> bool {
        self.inv(None)
    }

    /// What the invariant says of the free blocks.
    pub proof fn lemma_free_blocks(&self, class: nat, addr: int)
        requires
            self.wf(),
            self.is_free(class, addr),
        ensures
            class < CLASSES,
            addr % block_size(class) == 0,
            self.region().0 <= addr,
            addr + block_size(class) <= self.region().1,
            !self.is_held(class, addr),
            !self.is_free(class, buddy_of(class, addr)),
    {
        assert(self.is_block(None, class, addr));
    }

    /// No two blocks share a byte, and every managed byte lies in a block.
    pub proof fn lemma_blocks_partition(&self, x: int)
        requires
            self.wf(),
            self.region().0 <= x < self.region().1,
        ensures
            exists|class: nat, addr: int|
                (self.is_free(class, addr) || self.is_held(class, addr)) && addr <= x < addr
                    + block_size(class) && forall|c2: nat, a2: int|
                    (self.is_free(c2, a2) || self.is_held(c2, a2)) && a2 <= x < a2 + block_size(c2)
                        ==> c2 == class && a2 == addr,
    {
        assert(self.covered(None, x));
        let (class, addr) = choose|class: nat, addr: int| #[trigger]
            self.is_block(None, class, addr) && addr <= x < addr + block_size(class);
        assert forall|c2: nat, a2: int|
            (self.is_free(c2, a2) || self.is_held(c2, a2)) && a2 <= x < a2 + block_size(
                c2,
            ) implies c2 == class && a2 == addr by {
            assert(self.is_block(None, c2, a2));
            if c2 != class || a2 != addr {
                assert(!overlap(class, addr, c2, a2));
            }
        }
    }

    /// What pushing the block of class `class` at `addr` onto its free list
    /// does to the free blocks.
    proof fn lemma_pushed(before: Allocator, after: Allocator, class: nat, addr: usize)
        requires
            class < before.free().len(),
            after.free() == before.free().update(
                class as int,
                before.free()[class as int].push(addr),
            ),
        ensures
            after.free().len() == before.free().len(),
            forall|c: nat, x: int|
                #![trigger after.is_free(c, x)]
                #![trigger before.is_free(c, x)]
                after.is_free(c, x) == (before.is_free(c, x) || (c == class && x == addr)),
            free_bytes(after.free(), before.free().len()) == free_bytes(
                before.free(),
                before.free().len(),
            ) + block_size(class),
            !before.is_free(class, addr as int) ==> forall|k: int|
                0 <= k < before.free().len() && (#[trigger] before.free()[k]).no_duplicates()
                    ==> after.free()[k].no_duplicates(),
    {
        let old_list = before.free()[class as int];
        let new_list = old_list.push(addr);
        assert forall|c: nat, x: int|
            #![trigger after.is_free(c, x)]
            #![trigger before.is_free(c, x)]
            after.is_free(c, x) == (before.is_free(c, x) || (c == class && x == addr)) by {
            if c < before.free().len() {
                if c == class {
                    if before.is_free(c, x) {
                        let i = choose|i: int|
                            0 <= i < old_list.len() && #[trigger] before.free()[c as int][i] == x;
                        assert(after.free()[c as int][i] == x);
                    }
                    if x == addr {
                        assert(after.free()[c as int][old_list.len() as int] == x);
                    }
                    if after.is_free(c, x) {
                        let i = choose|i: int|
                            0 <= i < new_list.len() && #[trigger] after.free()[c as int][i] == x;
                        if i < old_list.len() {
                            assert(before.free()[c as int][i] == x);
                        }
                    }
                } else {
                    assert(after.free()[c as int] == before.free()[c as int]);
                }
            }
        }
        lemma_free_bytes_update(before.free(), class as int, new_list, before.free().len());
        assert((new_list.len() - old_list.len()) * block_size(class) == block_size(class))
            by (nonlinear_arith)
            requires
                new_list.len() - old_list.len() == 1,
        ;
        if !before.is_free(class, addr as int) {
            assert forall|k: int|
                0 <= k < before.free().len() && (
                #[trigger] before.free()[k]).no_duplicates() implies after.free()[k].no_duplicates() by {
                if k == class {
                    assert forall|i: int, j: int|
                        0 <= i < new_list.len() && 0 <= j < new_list.len() && i != j implies new_list[i]
                        != new_list[j] by {
                        if i == old_list.len() {
                            assert(before.free()[class as int][j] == new_list[j]);
                        } else if j == old_list.len() {
                            assert(before.free()[class as int][i] == new_list[i]);
                        }
                    }
                }
            }
        }
    }

    /// What removing the block at position `index` of the free list of class
    /// `class` does to the free blocks.
    proof fn lemma_removed(before: Allocator, after: Allocator, class: nat, index: int)
        requires
            class < before.free().len(),
            0 <= index < before.free()[class as int].len(),
            before.free()[class as int].no_duplicates(),
            after.free() == before.free().update(
                class as int,
                before.free()[class as int].remove(index),
            ),
        ensures
            after.free().len() == before.free().len(),
            forall|c: nat, x: int|
                #![trigger after.is_free(c, x)]
                #![trigger before.is_free(c, x)]
                after.is_free(c, x) == (before.is_free(c, x) && !(c == class && x
                    == before.free()[class as int][index])),
            free_bytes(after.free(), before.free().len()) == free_bytes(
                before.free(),
                before.free().len(),
            ) - block_size(class),
            forall|k: int|
                0 <= k < before.free().len() && (#[trigger] before.free()[k]).no_duplicates()
                    ==> after.free()[k].no_duplicates(),
    {
        let old_list = before.free()[class as int];
        let new_list = old_list.remove(index);
        let gone = old_list[index];
        assert forall|c: nat, x: int|
            #![trigger after.is_free(c, x)]
            #![trigger before.is_free(c, x)]
            after.is_free(c, x) == (before.is_free(c, x) && !(c == class && x == gone)) by {
            if c < before.free().len() {
                if c == class {
                    if before.is_free(c, x) && x != gone {
                        let i = choose|i: int|
                            0 <= i < old_list.len() && #[trigger] before.free()[c as int][i] == x;
                        if i < index {
                            assert(after.free()[c as int][i] == x);
                        } else {
                            assert(after.free()[c as int][i - 1] == x);
                        }
                    }
                    if after.is_free(c, x) {
                        let i = choose|i: int|
                            0 <= i < new_list.len() && #[trigger] after.free()[c as int][i] == x;
                        if i < index {
                            assert(before.free()[c as int][i] == x);
                        } else {
                            assert(before.free()[c as int][i + 1] == x);
                        }
                    }
                } else {
                    assert(after.free()[c as int] == before.free()[c as int]);
                }
            }
        }
        lemma_free_bytes_update(before.free(), class as int, new_list, before.free().len());
        assert((new_list.len() - old_list.len()) * block_size(class) == -block_size(class))
            by (nonlinear_arith)
            requires
                new_list.len() - old_list.len() == -1,
        ;
        assert forall|k: int|
            0 <= k < before.free().len() && (
            #[trigger] before.free()[k]).no_duplicates() implies after.free()[k].no_duplicates() by {
            if k == class {
                assert forall|i: int, j: int|
                    0 <= i < new_list.len() && 0 <= j < new_list.len() && i != j implies new_list[i]
                    != new_list[j] by {
                    let oi = if i < index {
                        i
                    } else {
                        i + 1
                    };
                    let oj = if j < index {
                        j
                    } else {
                        j + 1
                    };
                    assert(old_list[oi] != old_list[oj]);
                }
            }
        }
    }

    /// Pushes the block of class `class` at `addr` onto its free list.
    fn push_block(&mut self, class: usize, addr: usize)
        requires
            old(self).free().len() == CLASSES,
            class < CLASSES,
        ensures
            final(self).free() == old(self).free().update(
                class as int,
                old(self).free()[class as int].push(addr),
            ),
            final(self).held() == old(self).held(),
            final(self).region() == old(self).region(),
            final(self).allocated() == old(self).allocated(),
            final(self).total() == old(self).total(),
    {
        self.free_list[class].push(addr);
        assert(self.free() =~= old(self).free().update(
            class as int,
            old(self).free()[class as int].push(addr),
        ));
    }

    /// Removes the block at position `index` of the free list of class
    /// `class` and returns its address.
    fn remove_block(&mut self, class: usize, index: usize) -> (addr: usize)
        requires
            old(self).free().len() == CLASSES,
            class < CLASSES,
            index < old(self).free()[class as int].len(),
        ensures
            addr == old(self).free()[class as int][index as int],
            final(self).free() == old(self).free().update(
                class as int,
                old(self).free()[class as int].remove(index as int),
            ),
            final(self).held() == old(self).held(),
            final(self).region() == old(self).region(),
            final(self).allocated() == old(self).allocated(),
            final(self).total() == old(self).total(),
    {
        let addr = self.free_list[class].remove(index);
        assert(self.free() =~= old(self).free().update(
            class as int,
            old(self).free()[class as int].remove(index as int),
        ));
        addr
    }

    /// The number of free blocks of class `class`.
    fn free_count(&self, class: usize) -> (count: usize)
        requires
            self.free().len() == CLASSES,
            class < CLASSES,
        ensures
            count == self.free()[class as int].len(),
    {
        self.free_list[class].len()
    }

    /// The address of the free block at position `index` of class `class`.
    fn free_at(&self, class: usize, index: usize) -> (addr: usize)
        requires
            self.free().len() == CLASSES,
            class < CLASSES,
            index < self.free()[class as int].len(),
        ensures
            addr == self.free()[class as int][index as int],
    {
        self.free_list[class][index]
    }

    /// The number of bytes in blocks that were handed out and not returned.
    pub fn allocated_bytes(&self) -> (bytes: usize)
        ensures
            bytes == self.allocated(),
    {
        self.allocated
    }

    /// The number of bytes that the allocator manages.
    pub fn total_bytes(&self) -> (bytes: usize)
        ensures
            bytes == self.total(),
    {
        self.total
    }

    /// The addresses of the free blocks of class `class`, the one that is
    /// taken next last; nothing for a class that does not exist.
    pub fn free_blocks(&self, class: usize) -> (blocks: Vec<usize>)
        requires
            self.wf(),
        ensures
            class < CLASSES ==> blocks@ == self.free()[class as int],
            class >= CLASSES ==> blocks@.len() == 0,
    {
        let mut blocks: Vec<usize> = Vec::new();
        if class < CLASSES {
            let count = self.free_count(class);
            let mut i: usize = 0;
            while i < count
                invariant
                    self.free().len() == CLASSES,
                    class < CLASSES,
                    i <= count,
                    count == self.free()[class as int].len(),
                    blocks@ == self.free()[class as int].subrange(0, i as int),
                decreases count - i,
            {
                blocks.push(self.free_at(class, i));
                assert(blocks@ =~= self.free()[class as int].subrange(0, i + 1));
                i += 1;
            }
            assert(blocks@ =~= self.free()[class as int]);
        }
        blocks
    }

    /// Whether the allocator has a free block that an allocation for
    /// `layout` can be cut from.
    pub open spec fn has_block_for(&self, layout: Layout) -> bool {
        first_stocked(self.free(), class_of(layout)) < CLASSES
    }

    /// The address that an allocation for `layout` returns: that of the
    /// block at the end of the first stocked list.
    pub open spec fn next_block_for(&self, layout: Layout) -> usize {
        self.free()[first_stocked(self.free(), class_of(layout)) as int].last()
    }

    /// Creates a new bin allocator that will allocate memory from the region
    /// starting at address `start` and ending at address `end`.
    ///
    /// The region is cut into blocks from its start: each block is the
    /// largest that starts at a multiple of its size and still fits, and
    /// cutting stops when fewer than 8 bytes are left. The region must not
    /// start at address 0 and must be shorter than 4 GiB, which is what 32
    /// size classes can manage; it may lie anywhere in memory.
    pub fn new(start: usize, end: usize) -> (allocator: Allocator)
        requires
            0 < start,
            end - start < REGION_LIMIT,
        ensures
            allocator.wf(),
            allocator.free() == cut(no_blocks(), start as int, end as int),
            allocator.held() == Map::<int, nat>::empty(),
            allocator.allocated() == 0,
            allocator.region().0 == start,
            start + WORD_SIZE <= end ==> {
                &&& allocator.region().1 <= end
                &&& end - allocator.region().1 < WORD_SIZE
                &&& allocator.total() == allocator.region().1 - start
            },
            start + WORD_SIZE > end ==> allocator.total() == 0 && allocator.region().1 == start,
    {
        let mut free_list: Vec<Vec<usize>> = Vec::new();
        let mut k: usize = 0;
        while k < CLASSES
            invariant
                k <= CLASSES,
                free_list@.len() == k,
                forall|j: int| 0 <= j < k ==> (#[trigger] free_list@[j])@.len() == 0,
            decreases CLASSES - k,
        {
            free_list.push(Vec::new());
            k += 1;
        }
        let mut allocator = Allocator {
            free_list,
            allocated: 0,
            total: 0,
            held: Ghost(Map::empty()),
            region: Ghost((start as int, start as int)),
        };
        proof {
            assert forall|k: int| 0 <= k < CLASSES implies (
            #[trigger] allocator.free()[k]).no_duplicates() by {}
            assert forall|c: nat, x: int| !allocator.is_free(c, x) by {}
            assert forall|n: nat| n <= CLASSES implies free_bytes(allocator.free(), n) == 0 by {
                Self::lemma_empty_lists_hold_nothing(allocator.free(), n);
            }
            lemma_held_bytes_nonnegative(allocator.held(), start as int);
            assert(free_bytes(allocator.free(), CLASSES as nat) == 0);
            assert(allocator.free() =~= no_blocks()) by {
                assert forall|k: int| 0 <= k < CLASSES implies allocator.free()[k]
                    =~= Seq::<usize>::empty() by {}
            }
        }
        let mut current = start;
        let ghost mut last: Option<(nat, int)> = None;
        while current <= end && end - current >= WORD_SIZE
            invariant
                allocator.inv(None),
                cut(no_blocks(), start as int, end as int) == cut(
                    allocator.free(),
                    current as int,
                    end as int,
                ),
                allocator.region() == (start as int, current as int),
                allocator.held() == Map::<int, nat>::empty(),
                allocator.allocated() == 0,
                allocator.total() == current - start,
                0 < start <= current,
                current <= end || current == start,
                start + WORD_SIZE > end ==> current == start,
                end - start < REGION_LIMIT,
                last is None ==> current == start,
                last matches Some((last_class, last_addr)) ==> {
                    &&& allocator.is_free(last_class, last_addr)
                    &&& last_addr + block_size(last_class) == current
                    &&& (last_class == 31 || last_addr % block_size(last_class + 1) != 0 || end
                        - last_addr < block_size(last_class + 1))
                },
            decreases end - current,
        {
            let mut class: usize = 0;
            let mut size: usize = 1;
            proof {
                lemma_block_size(0);
                lemma_block_size(1);
            }
            while class < 31 && current % (2 * size) == 0 && 2 * size <= end - current
                invariant
                    class <= 31,
                    cut_class(current as int, end as int, 0) == cut_class(
                        current as int,
                        end as int,
                        class as nat,
                    ),
                    size == block_size(class as nat),
                    0 < size <= 0x8000_0000,
                    class < 31 ==> size <= 0x4000_0000,
                    current % size == 0,
                    size <= end - current,
                    current <= end,
                decreases 31 - class,
            {
                proof {
                    lemma_block_size(class as nat);
                    lemma_block_size((class + 1) as nat);
                    lemma_block_size((class + 2) as nat);
                }
                size = 2 * size;
                class += 1;
            }
            proof {
                lemma_block_size(class as nat);
                lemma_block_size((class + 1) as nat);
                assert(cut_class(current as int, end as int, 0) == class);
            }
            let ghost before = allocator;
            allocator.push_block(class, current);
            allocator.total += size;
            allocator.region = Ghost((start as int, current + size));
            proof {
                let after = allocator;
                let new_class = class as nat;
                let new_addr = current as int;
                Self::lemma_pushed(before, after, new_class, current);
                lemma_held_bytes_nonnegative(after.held(), current + size);
                assert forall|c: nat, x: int| #[trigger] before.is_block(None, c, x) implies x
                    + block_size(c) <= current by {}
                assert(!before.is_free(new_class, new_addr)) by {
                    if before.is_free(new_class, new_addr) {
                        assert(before.is_block(None, new_class, new_addr));
                    }
                }
                assert forall|c: nat, x: int| #[trigger] after.is_block(None, c, x) implies {
                    &&& c < CLASSES
                    &&& x % block_size(c) == 0
                    &&& after.region().0 <= x
                    &&& x + block_size(c) <= after.region().1
                } by {
                    if !(c == new_class && x == new_addr) {
                        assert(before.is_block(None, c, x));
                    }
                }
                assert forall|c1: nat, a1: int, c2: nat, a2: int|
                    #[trigger] after.is_block(None, c1, a1) && #[trigger] after.is_block(
                        None,
                        c2,
                        a2,
                    ) && (c1 != c2 || a1 != a2) implies !overlap(c1, a1, c2, a2) by {
                    let new1 = c1 == new_class && a1 == new_addr;
                    let new2 = c2 == new_class && a2 == new_addr;
                    if !new1 {
                        assert(before.is_block(None, c1, a1));
                    }
                    if !new2 {
                        assert(before.is_block(None, c2, a2));
                    }
                }
                assert forall|x: int|
                    after.region().0 <= x < after.region().1 implies #[trigger] after.covered(
                    None,
                    x,
                ) by {
                    if x < current {
                        assert(before.covered(None, x));
                        let (c, a) = choose|c: nat, a: int| #[trigger]
                            before.is_block(None, c, a) && a <= x < a + block_size(c);
                        assert(after.is_block(None, c, a));
                    } else {
                        assert(after.is_block(None, new_class, new_addr));
                    }
                }
                assert forall|c: nat, a1: int, a2: int|
                    #[trigger] after.is_free(c, a1) && #[trigger] after.is_free(
                        c,
                        a2,
                    ) implies buddy_of(c, a1) != a2 by {
                    let new1 = c == new_class && a1 == new_addr;
                    let new2 = c == new_class && a2 == new_addr;
                    if new1 && new2 {
                        lemma_buddy(new_class, new_addr);
                    } else if new1 || new2 {
                        let other = if new1 {
                            a2
                        } else {
                            a1
                        };
                        assert(before.is_free(c, other));
                        assert(before.is_block(None, c, other));
                        lemma_block_size(new_class);
                        lemma_block_size((new_class + 1) as nat);
                        lemma_buddy(new_class, new_addr);
                        lemma_buddy(new_class, other);
                        if buddy_of(c, a1) == a2 {
                            assert(buddy_of(new_class, new_addr) == other);
                            assert(other + block_size(new_class) <= new_addr);
                            assert(other == new_addr - block_size(new_class));
                            assert(other % block_size(new_class + 1) == 0);
                            assert(last is Some);
                            let (last_class, last_addr) = last.unwrap();
                            assert(before.is_block(None, last_class, last_addr));
                            lemma_block_size(last_class);
                            if last_class != new_class || last_addr != other {
                                assert(!overlap(last_class, last_addr, new_class, other));
                                assert(false);
                            }
                            assert(last_class == new_class && last_addr == other);
                            if last_class == 31 {
                                lemma_block_size(32);
                                assert(false);
                            } else {
                                assert(end - other < block_size(new_class + 1));
                                assert(false);
                            }
                        }
                    } else {
                        assert(before.is_free(c, a1));
                        assert(before.is_free(c, a2));
                    }
                }
                last = Some((new_class, new_addr));
            }
            current += size;
        }
        allocator
    }

    /// Empty lists hold no bytes.
    proof fn lemma_empty_lists_hold_nothing(free: Seq<Seq<usize>>, classes: nat)
        requires
            classes <= free.len(),
            forall|k: int| 0 <= k < free.len() ==> (#[trigger] free[k]).len() == 0,
        ensures
            free_bytes(free, classes) == 0,
        decreases classes,
    {
        if classes > 0 {
            Self::lemma_empty_lists_hold_nothing(free, (classes - 1) as nat);
            assert(free[classes - 1].len() == 0);
        }
    }

    /// Returns the size class of `layout`, or 32 if no class is large enough.
    pub fn class_for(layout: Layout) -> (class: usize)
        ensures
            class == class_of(layout),
            MIN_CLASS <= class <= CLASSES,
            class < CLASSES ==> block_size(class as nat) >= layout.size && block_size(class as nat)
                >= layout.align && block_size(class as nat) >= WORD_SIZE,
    {
        let mut class: usize = MIN_CLASS;
        let mut size: usize = WORD_SIZE;
        proof {
            lemma_block_size(3);
        }
        while class < CLASSES && (size < layout.size || size < layout.align)
            invariant
                MIN_CLASS <= class <= CLASSES,
                class < CLASSES ==> size == block_size(class as nat),
                class < CLASSES ==> size >= WORD_SIZE,
                class_of(layout) == class_from(
                    layout.size as int,
                    layout.align as int,
                    class as nat,
                ),
            decreases CLASSES - class,
        {
            proof {
                lemma_block_size(class as nat);
                lemma_block_size((class + 1) as nat);
            }
            class += 1;
            if class < CLASSES {
                size = size * 2;
            }
        }
        class
    }

    /// Allocates memory. Returns the address of a block that meets the size
    /// and alignment of `layout`.
    ///
    /// The block is of the size class of `layout`. It is taken from the
    /// first free list from that class on that is not empty; a larger block
    /// is split down to the class, and the upper half of each split goes to
    /// the free list of its class. Fails, changing nothing, exactly when the
    /// layout has no class or every free list from its class on is empty.
    pub fn allocate(&mut self, layout: Layout) -> (r: Result<usize, AllocErr>)
        requires
            old(self).wf(),
        ensures
            final(self).wf(),
            final(self).region() == old(self).region(),
            final(self).total() == old(self).total(),
            ({
                let class = class_of(layout);
                let source = first_stocked(old(self).free(), class);
                match r {
                    Ok(addr) => {
                        &&& source < CLASSES
                        &&& addr == old(self).free()[source as int].last()
                        &&& addr as int % block_size(class) == 0
                        &&& block_size(class) >= layout.size
                        &&& block_size(class) >= layout.align
                        &&& !old(self).held().contains_key(addr as int)
                        &&& final(self).held() == old(self).held().insert(addr as int, class)
                        &&& final(self).allocated() == old(self).allocated() + block_size(class)
                        &&& final(self).free() == carved(old(self).free(), class)
                    },
                    Err(_) => {
                        &&& source >= CLASSES
                        &&& final(self).free() == old(self).free()
                        &&& final(self).held() == old(self).held()
                        &&& final(self).allocated() == old(self).allocated()
                    },
                }
            }),
    {
        let class = Self::class_for(layout);
        if class >= CLASSES {
            return Err(AllocErr);
        }
        let mut source = class;
        while source < CLASSES && self.free_count(source) == 0
            invariant
                *self == *old(self),
                self.free().len() == CLASSES,
                class <= source <= CLASSES,
                first_stocked(self.free(), class as nat) == first_stocked(
                    self.free(),
                    source as nat,
                ),
                forall|k: int| class <= k < source ==> (#[trigger] self.free()[k]).len() == 0,
            decreases CLASSES - source,
        {
            source += 1;
        }
        if source >= CLASSES {
            return Err(AllocErr);
        }
        let count = self.free_count(source);
        let ghost initial = *self;
        let block = self.remove_block(source, count - 1);
        let ghost popped = *self;
        proof {
            let stocked = initial.free()[source as int];
            assert(stocked.remove(count - 1) =~= stocked.drop_last());
            Self::lemma_removed(initial, popped, source as nat, count - 1);
            Self::lemma_taken_in_hand(initial, popped, source as nat, block as int);
        }
        let mut k = source;
        while k > class
            invariant
                class <= k <= source < CLASSES,
                self.inv(Some((k as nat, block as int))),
                self.region() == old(self).region(),
                self.total() == old(self).total(),
                self.held() == old(self).held(),
                self.allocated() == old(self).allocated(),
                self.free()[source as int] == initial.free()[source as int].drop_last(),
                forall|j: int|
                    k <= j < source ==> #[trigger] self.free()[j] == seq![
                        (block + block_size(j as nat)) as usize,
                    ],
                forall|j: int|
                    0 <= j < k || source < j < CLASSES ==> #[trigger] self.free()[j]
                        == initial.free()[j],
                forall|j: int| class <= j < source ==> (#[trigger] initial.free()[j]).len() == 0,
            decreases k,
        {
            k -= 1;
            let half = size_of_class(k);
            let ghost before = *self;
            proof {
                assert(before.is_block(Some(((k + 1) as nat, block as int)), (k + 1) as nat, block as int));
                lemma_block_size(k as nat);
            }
            self.push_block(k, block + half);
            proof {
                Self::lemma_pushed(before, *self, k as nat, (block + half) as usize);
                Self::lemma_split(before, *self, k as nat, block as int);
                assert(self.free()[k as int] =~= seq![(block + block_size(k as nat)) as usize]);
            }
        }
        let size = size_of_class(class);
        let ghost before = *self;
        proof {
            assert(before.is_block(Some((class as nat, block as int)), class as nat, block as int));
            lemma_free_bytes_nonnegative(before.free(), CLASSES as nat);
        }
        self.held = Ghost(self.held@.insert(block as int, class as nat));
        self.allocated += size;
        proof {
            Self::lemma_handed_out(before, *self, class as nat, block as int);
            assert(self.free() =~= carved(initial.free(), class as nat));
        }
        Ok(block)
    }

    /// Taking a free block in the hand keeps the invariant.
    proof fn lemma_taken_in_hand(before: Allocator, after: Allocator, class: nat, addr: int)
        requires
            before.inv(None),
            before.is_free(class, addr),
            after.free().len() == before.free().len(),
            forall|c: nat, x: int|
                #![trigger after.is_free(c, x)]
                #![trigger before.is_free(c, x)]
                after.is_free(c, x) == (before.is_free(c, x) && !(c == class && x == addr)),
            free_bytes(after.free(), CLASSES as nat) == free_bytes(before.free(), CLASSES as nat)
                - block_size(class),
            forall|k: int|
                0 <= k < before.free().len() && (#[trigger] before.free()[k]).no_duplicates()
                    ==> after.free()[k].no_duplicates(),
            after.held() == before.held(),
            after.region() == before.region(),
            after.allocated() == before.allocated(),
            after.total() == before.total(),
        ensures
            after.inv(Some((class, addr))),
    {
        let hand = Some((class, addr));
        assert forall|c: nat, x: int| #[trigger] after.is_block(hand, c, x) implies before.is_block(
            None,
            c,
            x,
        ) by {}
        assert forall|c: nat, x: int| #[trigger] after.is_block(hand, c, x) implies {
            &&& c < CLASSES
            &&& x % block_size(c) == 0
            &&& after.region().0 <= x
            &&& x + block_size(c) <= after.region().1
        } by {
            assert(before.is_block(None, c, x));
        }
        assert forall|c1: nat, a1: int, c2: nat, a2: int|
            #[trigger] after.is_block(hand, c1, a1) && #[trigger] after.is_block(hand, c2, a2) && (c1
                != c2 || a1 != a2) implies !overlap(c1, a1, c2, a2) by {
            assert(before.is_block(None, c1, a1));
            assert(before.is_block(None, c2, a2));
        }
        assert forall|x: int|
            after.region().0 <= x < after.region().1 implies #[trigger] after.covered(hand, x) by {
            assert(before.covered(None, x));
            let (c, a) = choose|c: nat, a: int| #[trigger]
                before.is_block(None, c, a) && a <= x < a + block_size(c);
            assert(after.is_block(hand, c, a));
        }
        assert forall|c: nat, a1: int, a2: int|
            #[trigger] after.is_free(c, a1) && #[trigger] after.is_free(c, a2) implies buddy_of(
            c,
            a1,
        ) != a2 by {
            assert(before.is_free(c, a1) && before.is_free(c, a2));
        }
        assert forall|c: nat, x: int|
            !(#[trigger] after.is_free(c, x) && after.is_held(c, x)) by {
            if after.is_free(c, x) {
                assert(before.is_free(c, x));
            }
        }
        assert(!before.is_held(class, addr));
        assert(before.is_block(None, class, addr));
        assert forall|k: int| 0 <= k < CLASSES implies (
        #[trigger] after.free()[k]).no_duplicates() by {
            assert(before.free()[k].no_duplicates());
        }
    }

    /// Splitting the block in the hand and putting its upper half on the free
    /// list of its class keeps the invariant.
    proof fn lemma_split(before: Allocator, after: Allocator, class: nat, addr: int)
        requires
            before.inv(Some((class + 1, addr))),
            after.free().len() == before.free().len(),
            forall|c: nat, x: int|
                #![trigger after.is_free(c, x)]
                #![trigger before.is_free(c, x)]
                after.is_free(c, x) == (before.is_free(c, x) || (c == class && x == addr
                    + block_size(class))),
            free_bytes(after.free(), CLASSES as nat) == free_bytes(before.free(), CLASSES as nat)
                + block_size(class),
            !before.is_free(class, addr + block_size(class)) ==> forall|k: int|
                0 <= k < before.free().len() && (#[trigger] before.free()[k]).no_duplicates()
                    ==> after.free()[k].no_duplicates(),
            after.held() == before.held(),
            after.region() == before.region(),
            after.allocated() == before.allocated(),
            after.total() == before.total(),
        ensures
            after.inv(Some((class, addr))),
    {
        let old_hand = Some((class + 1, addr));
        let hand = Some((class, addr));
        let half = block_size(class);
        let upper = addr + half;
        lemma_block_size(class);
        assert(before.is_block(old_hand, class + 1, addr));
        lemma_aligned_to_smaller(addr, class, class + 1);
        lemma_buddy(class, addr);
        assert(addr / half % 2 == 0) by {
            if addr / half % 2 != 0 {
                assert(buddy_of(class, addr) == addr - half);
                assert((addr - half) % block_size(class + 1) == 0);
                vstd::arithmetic::div_mod::lemma_fundamental_div_mod(addr, 2 * half);
                vstd::arithmetic::div_mod::lemma_fundamental_div_mod(addr - half, 2 * half);
                let q1 = addr / (2 * half);
                let q2 = (addr - half) / (2 * half);
                assert(false) by (nonlinear_arith)
                    requires
                        addr == (2 * half) * q1,
                        addr - half == (2 * half) * q2,
                        half > 0,
                ;
            }
        }
        assert(buddy_of(class, addr) == upper);
        assert(upper % half == 0);
        assert(buddy_of(class, upper) == addr);
        // Neither half existed as a block before.
        assert forall|c: nat, x: int| (c == class && (x == addr || x == upper)) implies !(
        #[trigger] before.is_block(old_hand, c, x)) by {
            if before.is_block(old_hand, c, x) {
                assert(!overlap(c, x, class + 1, addr));
            }
        }
        assert forall|c: nat, x: int| #[trigger] after.is_block(hand, c, x) implies (
        before.is_block(old_hand, c, x) && !(c == class + 1 && x == addr)) || (c == class && (x
            == addr || x == upper)) by {}
        assert forall|c: nat, x: int| #[trigger] after.is_block(hand, c, x) implies {
            &&& c < CLASSES
            &&& x % block_size(c) == 0
            &&& after.region().0 <= x
            &&& x + block_size(c) <= after.region().1
        } by {
            if !(c == class && (x == addr || x == upper)) {
                assert(before.is_block(old_hand, c, x));
            }
        }
        assert forall|c1: nat, a1: int, c2: nat, a2: int|
            #[trigger] after.is_block(hand, c1, a1) && #[trigger] after.is_block(hand, c2, a2) && (c1
                != c2 || a1 != a2) implies !overlap(c1, a1, c2, a2) by {
            let new1 = c1 == class && (a1 == addr || a1 == upper);
            let new2 = c2 == class && (a2 == addr || a2 == upper);
            if !new1 {
                assert(before.is_block(old_hand, c1, a1));
                assert(!overlap(c1, a1, class + 1, addr));
            }
            if !new2 {
                assert(before.is_block(old_hand, c2, a2));
                assert(!overlap(c2, a2, class + 1, addr));
            }
        }
        assert forall|x: int|
            after.region().0 <= x < after.region().1 implies #[trigger] after.covered(hand, x) by {
            assert(before.covered(old_hand, x));
            let (c, a) = choose|c: nat, a: int| #[trigger]
                before.is_block(old_hand, c, a) && a <= x < a + block_size(c);
            if c == class + 1 && a == addr {
                if x < upper {
                    assert(after.is_block(hand, class, addr));
                } else {
                    assert(after.is_free(class, upper));
                    assert(after.is_block(hand, class, upper));
                }
            } else {
                assert(after.is_block(hand, c, a));
            }
        }
        assert forall|c: nat, a1: int, a2: int|
            #[trigger] after.is_free(c, a1) && #[trigger] after.is_free(c, a2) implies buddy_of(
            c,
            a1,
        ) != a2 by {
            let new1 = c == class && a1 == upper;
            let new2 = c == class && a2 == upper;
            if new1 && new2 {
            } else if new1 {
                assert(before.is_free(c, a2));
                assert(before.is_block(old_hand, c, a2));
            } else if new2 {
                assert(before.is_free(c, a1));
                assert(before.is_block(old_hand, c, a1));
                lemma_buddy(c, a1);
            } else {
                assert(before.is_free(c, a1) && before.is_free(c, a2));
            }
        }
        assert forall|c: nat, x: int|
            !(#[trigger] after.is_free(c, x) && after.is_held(c, x)) by {
            if after.is_free(c, x) && after.is_held(c, x) {
                if c == class && x == upper {
                    assert(before.is_block(old_hand, c, x));
                } else {
                    assert(before.is_free(c, x));
                }
            }
        }
        assert(!after.is_free(class, addr)) by {
            if after.is_free(class, addr) {
                assert(before.is_free(class, addr));
                assert(before.is_block(old_hand, class, addr));
            }
        }
        assert(!after.is_held(class, addr)) by {
            if after.is_held(class, addr) {
                assert(before.is_block(old_hand, class, addr));
            }
        }
        assert(!before.is_free(class, upper)) by {
            if before.is_free(class, upper) {
                assert(before.is_block(old_hand, class, upper));
            }
        }
        assert forall|k: int| 0 <= k < CLASSES implies (
        #[trigger] after.free()[k]).no_duplicates() by {
            assert(before.free()[k].no_duplicates());
        }
    }

    /// Handing out the block in the hand keeps the invariant.
    proof fn lemma_handed_out(before: Allocator, after: Allocator, class: nat, addr: int)
        requires
            before.inv(Some((class, addr))),
            class >= MIN_CLASS,
            after.free() == before.free(),
            after.held() == before.held().insert(addr, class),
            after.region() == before.region(),
            after.allocated() == before.allocated() + block_size(class),
            after.total() == before.total(),
        ensures
            after.inv(None),
            !before.held().contains_key(addr),
    {
        let hand = Some((class, addr));
        assert(before.is_block(hand, class, addr));
        lemma_block_size(class);
        lemma_held_bytes_change(before.held(), addr, class, before.region().1);
        assert(!before.held().contains_key(addr)) by {
            if before.held().contains_key(addr) {
                let c = before.held()[addr];
                assert(before.is_held(c, addr));
                assert(before.is_block(hand, c, addr));
                lemma_block_size(c);
                if c != class {
                    assert(!overlap(c, addr, class, addr));
                }
            }
        }
        assert forall|c: nat, x: int| #[trigger] after.is_free(c, x) == before.is_free(c, x) by {}
        assert forall|c: nat, x: int| #[trigger] after.is_block(None, c, x) implies before.is_block(
            hand,
            c,
            x,
        ) by {
            assert(after.is_free(c, x) == before.is_free(c, x));
        }
        assert forall|c: nat, x: int| #[trigger] after.is_block(None, c, x) implies {
            &&& c < CLASSES
            &&& x % block_size(c) == 0
            &&& after.region().0 <= x
            &&& x + block_size(c) <= after.region().1
        } by {
            assert(before.is_block(hand, c, x));
        }
        assert forall|c1: nat, a1: int, c2: nat, a2: int|
            #[trigger] after.is_block(None, c1, a1) && #[trigger] after.is_block(None, c2, a2) && (c1
                != c2 || a1 != a2) implies !overlap(c1, a1, c2, a2) by {
            assert(before.is_block(hand, c1, a1));
            assert(before.is_block(hand, c2, a2));
        }
        assert forall|x: int|
            after.region().0 <= x < after.region().1 implies #[trigger] after.covered(None, x) by {
            assert(before.covered(hand, x));
            let (c, a) = choose|c: nat, a: int| #[trigger]
                before.is_block(hand, c, a) && a <= x < a + block_size(c);
            if c == class && a == addr {
                assert(after.is_held(c, a));
            } else {
                assert(before.is_free(c, a) || before.is_held(c, a));
                assert(after.is_free(c, a) == before.is_free(c, a));
            }
            assert(after.is_block(None, c, a));
        }
        assert forall|c: nat, a1: int, a2: int|
            #[trigger] after.is_free(c, a1) && #[trigger] after.is_free(c, a2) implies buddy_of(
            c,
            a1,
        ) != a2 by {
            assert(before.is_free(c, a1) && before.is_free(c, a2));
        }
        assert forall|c: nat, x: int|
            !(#[trigger] after.is_free(c, x) && after.is_held(c, x)) by {
            if after.is_free(c, x) && after.is_held(c, x) {
                assert(before.is_free(c, x));
                if x == addr {
                    assert(before.is_block(hand, c, x));
                    lemma_block_size(c);
                    if c != class {
                        assert(!overlap(c, x, class, addr));
                    }
                }
            }
        }
    }

    /// Deallocates the block at `ptr`, which was allocated with `layout` and
    /// not returned since.
    ///
    /// The block comes back to the free list of its class. As long as its
    /// buddy is in that list too, the two leave it and make one block of the
    /// next class, so that the two buddies of a block are never both in a
    /// free list.
    pub fn dealloc(&mut self, ptr: usize, layout: Layout)
        requires
            old(self).wf(),
            old(self).is_held(class_of(layout), ptr as int),
        ensures
            final(self).wf(),
            final(self).region() == old(self).region(),
            final(self).total() == old(self).total(),
            final(self).held() == old(self).held().remove(ptr as int),
            final(self).allocated() == old(self).allocated() - block_size(class_of(layout)),
            final(self).free() == coalesced(old(self).free(), class_of(layout), ptr as int),
    {
        let class = Self::class_for(layout);
        proof {
            assert(self.is_block(None, class as nat, ptr as int));
            lemma_held_bytes_change(self.held(), ptr as int, class as nat, self.region().1);
            lemma_held_bytes_nonnegative(self.held().remove(ptr as int), self.region().1);
        }
        let size = size_of_class(class);
        let ghost initial = *self;
        self.held = Ghost(self.held@.remove(ptr as int));
        self.allocated -= size;
        proof {
            Self::lemma_returned(initial, *self, class as nat, ptr as int);
        }
        let mut current_class = class;
        let mut current_ptr = ptr;
        loop
            invariant
                current_class < CLASSES,
                self.inv(Some((current_class as nat, current_ptr as int))),
                self.region() == old(self).region(),
                self.total() == old(self).total(),
                self.held() == old(self).held().remove(ptr as int),
                self.allocated() == old(self).allocated() - block_size(class_of(layout)),
                coalesced(old(self).free(), class_of(layout), ptr as int) == coalesced(
                    self.free(),
                    current_class as nat,
                    current_ptr as int,
                ),
            ensures
                current_class < CLASSES,
                self.inv(Some((current_class as nat, current_ptr as int))),
                self.region() == old(self).region(),
                self.total() == old(self).total(),
                self.held() == old(self).held().remove(ptr as int),
                self.allocated() == old(self).allocated() - block_size(class_of(layout)),
                coalesced(old(self).free(), class_of(layout), ptr as int) == self.free().update(
                    current_class as int,
                    self.free()[current_class as int].push(current_ptr),
                ),
                current_class < 31 ==> !self.is_free(
                    current_class as nat,
                    buddy_of(current_class as nat, current_ptr as int),
                ),
            decreases CLASSES - current_class,
        {
            if current_class >= 31 {
                break ;
            }
            let block = size_of_class(current_class);
            proof {
                assert(self.is_block(
                    Some((current_class as nat, current_ptr as int)),
                    current_class as nat,
                    current_ptr as int,
                ));
                lemma_buddy(current_class as nat, current_ptr as int);
            }
            let buddy = if (current_ptr / block) % 2 == 0 {
                current_ptr + block
            } else {
                current_ptr - block
            };
            let count = self.free_count(current_class);
            let mut index: usize = 0;
            while index < count && self.free_at(current_class, index) != buddy
                invariant
                    self.free().len() == CLASSES,
                    current_class < CLASSES,
                    index <= count,
                    count == self.free()[current_class as int].len(),
                    forall|i: int| 0 <= i < index ==> self.free()[current_class as int][i] != buddy,
                decreases count - index,
            {
                index += 1;
            }
            if index < count {
                let ghost before = *self;
                let ghost list = self.free()[current_class as int];
                self.remove_block(current_class, index);
                let low = if current_ptr < buddy {
                    current_ptr
                } else {
                    buddy
                };
                proof {
                    assert(list[index as int] == buddy);
                    assert(list.contains(buddy));
                    assert(list.index_of(buddy) == index) by {
                        let chosen = list.index_of(buddy);
                        assert(list[chosen] == buddy);
                    }
                    Self::lemma_removed(before, *self, current_class as nat, index as int);
                    Self::lemma_merged(before, *self, current_class as nat, current_ptr as int);
                }
                current_ptr = low;
                current_class += 1;
            } else {
                proof {
                    let list = self.free()[current_class as int];
                    assert(!list.contains(buddy));
                    assert(!self.is_free(current_class as nat, buddy as int));
                }
                break ;
            }
        }
        let ghost before = *self;
        self.push_block(current_class, current_ptr);
        proof {
            Self::lemma_pushed(before, *self, current_class as nat, current_ptr);
            Self::lemma_put_back(before, *self, current_class as nat, current_ptr as int);
        }
    }

    /// Taking a block back from its holder into the hand keeps the
    /// invariant.
    proof fn lemma_returned(before: Allocator, after: Allocator, class: nat, addr: int)
        requires
            before.inv(None),
            before.is_held(class, addr),
            after.free() == before.free(),
            after.held() == before.held().remove(addr),
            after.region() == before.region(),
            after.allocated() == before.allocated() - block_size(class),
            after.total() == before.total(),
        ensures
            after.inv(Some((class, addr))),
    {
        let hand = Some((class, addr));
        assert(before.is_block(None, class, addr));
        lemma_held_bytes_change(before.held(), addr, class, before.region().1);
        assert forall|c: nat, x: int| #[trigger] after.is_free(c, x) == before.is_free(c, x) by {}
        assert forall|c: nat, x: int| #[trigger] after.is_block(hand, c, x) implies before.is_block(
            None,
            c,
            x,
        ) by {
            assert(after.is_free(c, x) == before.is_free(c, x));
        }
        assert forall|c: nat, x: int| #[trigger] after.is_block(hand, c, x) implies {
            &&& c < CLASSES
            &&& x % block_size(c) == 0
            &&& after.region().0 <= x
            &&& x + block_size(c) <= after.region().1
        } by {
            assert(before.is_block(None, c, x));
        }
        assert forall|c1: nat, a1: int, c2: nat, a2: int|
            #[trigger] after.is_block(hand, c1, a1) && #[trigger] after.is_block(hand, c2, a2) && (c1
                != c2 || a1 != a2) implies !overlap(c1, a1, c2, a2) by {
            assert(before.is_block(None, c1, a1));
            assert(before.is_block(None, c2, a2));
        }
        assert forall|x: int|
            after.region().0 <= x < after.region().1 implies #[trigger] after.covered(hand, x) by {
            assert(before.covered(None, x));
            let (c, a) = choose|c: nat, a: int| #[trigger]
                before.is_block(None, c, a) && a <= x < a + block_size(c);
            assert(after.is_free(c, a) == before.is_free(c, a));
            assert(after.is_block(hand, c, a));
        }
        assert forall|c: nat, a1: int, a2: int|
            #[trigger] after.is_free(c, a1) && #[trigger] after.is_free(c, a2) implies buddy_of(
            c,
            a1,
        ) != a2 by {
            assert(before.is_free(c, a1) && before.is_free(c, a2));
        }
        assert forall|c: nat, x: int|
            !(#[trigger] after.is_free(c, x) && after.is_held(c, x)) by {
            if after.is_free(c, x) {
                assert(before.is_free(c, x));
            }
        }
        assert(!after.is_free(class, addr)) by {
            if after.is_free(class, addr) {
                assert(before.is_free(class, addr));
            }
        }
    }

    /// Taking the buddy of the block in the hand from its free list, and
    /// holding the two as one block of the next class, keeps the invariant.
    proof fn lemma_merged(before: Allocator, after: Allocator, class: nat, addr: int)
        requires
            class < 31,
            before.inv(Some((class, addr))),
            before.is_free(class, buddy_of(class, addr)),
            after.free().len() == before.free().len(),
            forall|c: nat, x: int|
                #![trigger after.is_free(c, x)]
                #![trigger before.is_free(c, x)]
                after.is_free(c, x) == (before.is_free(c, x) && !(c == class && x == buddy_of(
                    class,
                    addr,
                ))),
            free_bytes(after.free(), CLASSES as nat) == free_bytes(before.free(), CLASSES as nat)
                - block_size(class),
            forall|k: int|
                0 <= k < before.free().len() && (#[trigger] before.free()[k]).no_duplicates()
                    ==> after.free()[k].no_duplicates(),
            after.held() == before.held(),
            after.region() == before.region(),
            after.allocated() == before.allocated(),
            after.total() == before.total(),
        ensures
            after.inv(
                Some(
                    (
                        class + 1,
                        if addr < buddy_of(class, addr) {
                            addr
                        } else {
                            buddy_of(class, addr)
                        },
                    ),
                ),
            ),
    {
        let old_hand = Some((class, addr));
        let buddy = buddy_of(class, addr);
        let low = if addr < buddy {
            addr
        } else {
            buddy
        };
        let hand = Some((class + 1, low));
        let half = block_size(class);
        lemma_block_size(class);
        assert(before.is_block(old_hand, class, addr));
        assert(before.is_block(old_hand, class, buddy));
        lemma_buddy(class, addr);
        assert(!overlap(class, addr, class, buddy));
        assert forall|c: nat, x: int| c == class + 1 && x == low implies !(
        #[trigger] before.is_block(old_hand, c, x)) by {
            if before.is_block(old_hand, c, x) {
                assert(!overlap(c, x, class, addr));
                assert(!overlap(c, x, class, buddy));
            }
        }
        assert forall|c: nat, x: int| #[trigger] after.is_block(hand, c, x) implies (
        before.is_block(old_hand, c, x) && !(c == class && (x == addr || x == buddy))) || (c
            == class + 1 && x == low) by {
            if after.is_free(c, x) {
                assert(before.is_free(c, x));
                assert(!before.is_free(class, addr));
            } else if after.is_held(c, x) {
                assert(!(before.is_free(c, x) && before.is_held(c, x)));
                assert(!before.is_held(class, addr));
            }
        }
        assert forall|c: nat, x: int| #[trigger] after.is_block(hand, c, x) implies {
            &&& c < CLASSES
            &&& x % block_size(c) == 0
            &&& after.region().0 <= x
            &&& x + block_size(c) <= after.region().1
        } by {
            if !(c == class + 1 && x == low) {
                assert(before.is_block(old_hand, c, x));
            }
        }
        assert forall|c1: nat, a1: int, c2: nat, a2: int|
            #[trigger] after.is_block(hand, c1, a1) && #[trigger] after.is_block(hand, c2, a2) && (c1
                != c2 || a1 != a2) implies !overlap(c1, a1, c2, a2) by {
            let new1 = c1 == class + 1 && a1 == low;
            let new2 = c2 == class + 1 && a2 == low;
            lemma_block_size(c1);
            lemma_block_size(c2);
            if !new1 {
                assert(before.is_block(old_hand, c1, a1));
                assert(!overlap(c1, a1, class, addr));
                assert(!overlap(c1, a1, class, buddy));
            }
            if !new2 {
                assert(before.is_block(old_hand, c2, a2));
                assert(!overlap(c2, a2, class, addr));
                assert(!overlap(c2, a2, class, buddy));
            }
        }
        assert forall|x: int|
            after.region().0 <= x < after.region().1 implies #[trigger] after.covered(hand, x) by {
            assert(before.covered(old_hand, x));
            let (c, a) = choose|c: nat, a: int| #[trigger]
                before.is_block(old_hand, c, a) && a <= x < a + block_size(c);
            if c == class && (a == addr || a == buddy) {
                assert(after.is_block(hand, class + 1, low));
            } else {
                assert(after.is_block(hand, c, a));
            }
        }
        assert forall|c: nat, a1: int, a2: int|
            #[trigger] after.is_free(c, a1) && #[trigger] after.is_free(c, a2) implies buddy_of(
            c,
            a1,
        ) != a2 by {
            assert(before.is_free(c, a1) && before.is_free(c, a2));
        }
        assert forall|c: nat, x: int|
            !(#[trigger] after.is_free(c, x) && after.is_held(c, x)) by {
            if after.is_free(c, x) {
                assert(before.is_free(c, x));
            }
        }
        assert(!after.is_free(class + 1, low)) by {
            if after.is_free(class + 1, low) {
                assert(before.is_free(class + 1, low));
                assert(before.is_block(old_hand, class + 1, low));
            }
        }
        assert(!after.is_held(class + 1, low)) by {
            if after.is_held(class + 1, low) {
                assert(before.is_block(old_hand, class + 1, low));
            }
        }
        assert forall|k: int| 0 <= k < CLASSES implies (
        #[trigger] after.free()[k]).no_duplicates() by {
            assert(before.free()[k].no_duplicates());
        }
    }

    /// Putting the block in the hand on the free list of its class keeps the
    /// invariant, if its buddy is not in that list.
    proof fn lemma_put_back(before: Allocator, after: Allocator, class: nat, addr: int)
        requires
            before.inv(Some((class, addr))),
            class < 31 ==> !before.is_free(class, buddy_of(class, addr)),
            after.free().len() == before.free().len(),
            forall|c: nat, x: int|
                #![trigger after.is_free(c, x)]
                #![trigger before.is_free(c, x)]
                after.is_free(c, x) == (before.is_free(c, x) || (c == class && x == addr)),
            free_bytes(after.free(), CLASSES as nat) == free_bytes(before.free(), CLASSES as nat)
                + block_size(class),
            !before.is_free(class, addr) ==> forall|k: int|
                0 <= k < before.free().len() && (#[trigger] before.free()[k]).no_duplicates()
                    ==> after.free()[k].no_duplicates(),
            after.held() == before.held(),
            after.region() == before.region(),
            after.allocated() == before.allocated(),
            after.total() == before.total(),
        ensures
            after.inv(None),
    {
        let hand = Some((class, addr));
        assert(before.is_block(hand, class, addr));
        assert forall|c: nat, x: int| #[trigger] after.is_block(None, c, x) implies before.is_block(
            hand,
            c,
            x,
        ) by {}
        assert forall|c: nat, x: int| #[trigger] after.is_block(None, c, x) implies {
            &&& c < CLASSES
            &&& x % block_size(c) == 0
            &&& after.region().0 <= x
            &&& x + block_size(c) <= after.region().1
        } by {
            assert(before.is_block(hand, c, x));
        }
        assert forall|c1: nat, a1: int, c2: nat, a2: int|
            #[trigger] after.is_block(None, c1, a1) && #[trigger] after.is_block(None, c2, a2) && (c1
                != c2 || a1 != a2) implies !overlap(c1, a1, c2, a2) by {
            assert(before.is_block(hand, c1, a1));
            assert(before.is_block(hand, c2, a2));
        }
        assert forall|x: int|
            after.region().0 <= x < after.region().1 implies #[trigger] after.covered(None, x) by {
            assert(before.covered(hand, x));
            let (c, a) = choose|c: nat, a: int| #[trigger]
                before.is_block(hand, c, a) && a <= x < a + block_size(c);
            if c == class && a == addr {
                assert(after.is_free(c, a));
            }
            assert(after.is_block(None, c, a));
        }
        assert forall|c: nat, a1: int, a2: int|
            #[trigger] after.is_free(c, a1) && #[trigger] after.is_free(c, a2) implies buddy_of(
            c,
            a1,
        ) != a2 by {
            let new1 = c == class && a1 == addr;
            let new2 = c == class && a2 == addr;
            lemma_buddy(class, addr);
            if new1 && new2 {
            } else if new1 || new2 {
                let other = if new1 {
                    a2
                } else {
                    a1
                };
                assert(before.is_free(c, other));
                assert(before.is_block(hand, c, other));
                lemma_buddy(c, other);
                if buddy_of(c, a1) == a2 {
                    assert(buddy_of(class, addr) == other);
                    if class == 31 {
                        lemma_block_size(31);
                        lemma_block_size(32);
                        let low = if addr < other {
                            addr
                        } else {
                            other
                        };
                        assert(low % block_size(32) == 0);
                        assert(false);
                    }
                }
            } else {
                assert(before.is_free(c, a1) && before.is_free(c, a2));
            }
        }
        assert forall|c: nat, x: int|
            !(#[trigger] after.is_free(c, x) && after.is_held(c, x)) by {
            if after.is_free(c, x) && after.is_held(c, x) {
                if c == class && x == addr {
                    assert(!before.is_held(class, addr));
                } else {
                    assert(before.is_free(c, x));
                }
            }
        }
        assert forall|k: int| 0 <= k < CLASSES implies (
        #[trigger] after.free()[k]).no_duplicates() by {
            assert(before.free()[k].no_duplicates());
        }
    }
}

} // verus!
