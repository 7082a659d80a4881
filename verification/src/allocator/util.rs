//! Powers of two.

use vstd::prelude::*;
use vstd::arithmetic::power2::{lemma_pow2_pos, lemma_pow2_strictly_increases, lemma_pow2_unfold, pow2};

verus! {

/// The number of size classes. Class `k` holds blocks of `2^k` bytes.
pub const CLASSES: usize = 32;

/// The size in bytes of a block of class `class`.
pub open spec fn block_size(class: nat) -> int {
    pow2(class) as int
}

/// Sizes of blocks double from one class to the next, and fit in 32 bits.
pub proof fn lemma_block_size(class: nat)
    ensures
        block_size(class) > 0,
        block_size(class + 1) == 2 * block_size(class),
        class < 32 ==> block_size(class) <= 0x8000_0000,
        class == 3 ==> block_size(class) == 8,
        class == 0 ==> block_size(class) == 1,
        class == 31 ==> block_size(class) == 0x8000_0000,
        class == 32 ==> block_size(class) == 0x1_0000_0000,
{
    lemma_pow2_pos(class);
    lemma_pow2_unfold(class + 1);
    vstd::arithmetic::power2::lemma2_to64();
    if class < 31 {
        lemma_pow2_strictly_increases(class, 31);
    }
}

/// A larger class has larger blocks, whose size is a multiple of the smaller
/// size.
pub proof fn lemma_block_size_multiple(small: nat, large: nat)
    requires
        small <= large,
    ensures
        block_size(small) <= block_size(large),
        block_size(large) % block_size(small) == 0,
        block_size(large) == block_size(small) * block_size((large - small) as nat),
{
    vstd::arithmetic::power2::lemma_pow2_adds(small, (large - small) as nat);
    lemma_pow2_pos(small);
    lemma_pow2_pos((large - small) as nat);
    let a = block_size(small);
    let b = block_size((large - small) as nat);
    assert(a * b >= a && (a * b) % a == 0) by (nonlinear_arith)
        requires
            a > 0,
            b > 0,
    ;
}

/// Returns the size of a block of class `class`.
pub fn size_of_class(class: usize) -> (size: usize)
    requires
        class < CLASSES,
    ensures
        size == block_size(class as nat),
        0 < size <= 0x8000_0000,
{
    let mut size: usize = 1;
    let mut k: usize = 0;
    proof {
        lemma_block_size(0);
    }
    while k < class
        invariant
            k <= class < CLASSES,
            size == block_size(k as nat),
        decreases class - k,
    {
        proof {
            lemma_block_size(k as nat);
            lemma_block_size((k + 1) as nat);
        }
        size = size * 2;
        k += 1;
    }
    proof {
        lemma_block_size(class as nat);
    }
    size
}

/// The largest power of two that is at most `n`, for specifications: the
/// greatest class whose block size is at most `n`, up to class 31.
pub open spec fn floor_class(n: int, class: nat) -> nat
    decreases 31 - class,
{
    if class < 31 && block_size(class + 1) <= n {
        floor_class(n, class + 1)
    } else {
        class
    }
}

/// Returns the largest power of two that is at most `n`, or `2^31` if `n` is
/// larger than that.
pub fn prev_power_of_two(n: usize) -> (size: usize)
    requires
        n >= 1,
    ensures
        size == block_size(floor_class(n as int, 0)),
        size <= n,
        floor_class(n as int, 0) < 31 ==> n < 2 * size,
{
    let mut size: usize = 1;
    let mut class: usize = 0;
    proof {
        lemma_block_size(0);
    }
    while class < 31 && size <= n / 2
        invariant
            class <= 31,
            size == block_size(class as nat),
            size <= n,
            floor_class(n as int, 0) == floor_class(n as int, class as nat),
        decreases 31 - class,
    {
        proof {
            lemma_block_size(class as nat);
        }
        size = size * 2;
        class += 1;
    }
    proof {
        lemma_block_size(class as nat);
    }
    size
}

} // verus!
