//! The stack of a process.

use vstd::prelude::*;
use crate::allocator::bin::{carved, class_of, coalesced, Allocator, Layout};
use crate::allocator::util::block_size;
use crate::vm::PhysicalAddr;

verus! {

/// A stack of `Stack::SIZE` bytes, aligned to `Stack::ALIGN`, in memory that
/// came from the allocator.
#[derive(Debug, Clone, Copy, PartialEq, Eq, Structural)]
pub struct Stack {
    pub base: usize,
}

/// The size of a stack in bytes: 1 MiB.
pub const STACK_SIZE: usize = 0x10_0000;

/// The alignment of a stack in bytes.
pub const STACK_ALIGN: usize = 16;

impl Stack {
    /// The default stack size is 1MiB.
    pub const SIZE: usize = 0x10_0000;

    /// The default stack alignment is 16 bytes.
    pub const ALIGN: usize = 16;

    /// The layout that the memory of a stack is allocated with.
    pub open spec fn spec_layout() -> Layout {
        Layout { size: STACK_SIZE, align: STACK_ALIGN }
    }

    /// The layout that the memory of a stack is allocated with.
    pub fn layout() -> (layout: Layout)
        ensures
            layout == Self::spec_layout(),
    {
        Layout { size: STACK_SIZE, align: STACK_ALIGN }
    }

    /// Returns a newly allocated process stack, or `None` if the allocator
    /// has no block that is large enough.
    pub fn new(allocator: &mut Allocator) -> (stack: Option<Stack>)
        requires
            old(allocator).wf(),
        ensures
            final(allocator).wf(),
            final(allocator).region() == old(allocator).region(),
            match stack {
                Some(stack) => {
                    &&& old(allocator).has_block_for(Self::spec_layout())
                    &&& stack.base == old(allocator).next_block_for(Self::spec_layout())
                    &&& final(allocator).free() == carved(
                        old(allocator).free(),
                        class_of(Self::spec_layout()),
                    )
                    &&& !old(allocator).held().contains_key(stack.base as int)
                    &&& final(allocator).held() == old(allocator).held().insert(
                        stack.base as int,
                        class_of(Self::spec_layout()),
                    )
                    &&& block_size(class_of(Self::spec_layout())) >= STACK_SIZE
                    &&& stack.base as int % block_size(class_of(Self::spec_layout())) == 0
                    &&& stack.base + STACK_SIZE <= usize::MAX
                },
                None => {
                    &&& !old(allocator).has_block_for(Self::spec_layout())
                    &&& final(allocator).held() == old(allocator).held()
                    &&& final(allocator).free() == old(allocator).free()
                },
            },
    {
        match allocator.allocate(Self::layout()) {
            Ok(base) => {
                proof {
                    assert(allocator.is_block(None, class_of(Self::spec_layout()), base as int));
                }
                Some(Stack { base })
            },
            Err(_) => None,
        }
    }

    /// Gives the memory of the stack back to the allocator it came from.
    pub fn release(self, allocator: &mut Allocator)
        requires
            old(allocator).wf(),
            old(allocator).is_held(class_of(Self::spec_layout()), self.base as int),
        ensures
            final(allocator).wf(),
            final(allocator).region() == old(allocator).region(),
            final(allocator).held() == old(allocator).held().remove(self.base as int),
            final(allocator).free() == coalesced(
                old(allocator).free(),
                class_of(Self::spec_layout()),
                self.base as int,
            ),
    {
        allocator.dealloc(self.base, Self::layout());
    }

    /// Returns the physical address of the top of the stack: the address
    /// behind its last byte.
    pub fn top(&self) -> (addr: PhysicalAddr)
        requires
            self.base + STACK_SIZE <= usize::MAX,
        ensures
            addr.0 == self.base + STACK_SIZE,
    {
        PhysicalAddr(self.base + STACK_SIZE)
    }

    /// Returns the physical address of the bottom of the stack: the address
    /// of its first byte.
    pub fn bottom(&self) -> (addr: PhysicalAddr)
        ensures
            addr.0 == self.base,
    {
        PhysicalAddr(self.base)
    }
}

} // verus!
