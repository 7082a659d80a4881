use pi_kernel::allocator::bin::{AllocErr, Allocator, Layout};
use pi_kernel::allocator::util::{prev_power_of_two, size_of_class};

fn layout(size: usize, align: usize) -> Layout {
    Layout { size, align }
}

fn free_lists(allocator: &Allocator) -> Vec<(usize, Vec<usize>)> {
    (0..32).map(|class| (class, allocator.free_blocks(class))).filter(|(_, blocks)| !blocks.is_empty()).collect()
}

#[test]
fn region_is_cut_into_aligned_blocks() {
    let allocator = Allocator::new(0x1000, 0x5000);
    assert_eq!(
        free_lists(&allocator),
        vec![(12, vec![0x1000, 0x4000]), (13, vec![0x2000])]
    );
    assert_eq!(allocator.total_bytes(), 0x4000);
    assert_eq!(allocator.allocated_bytes(), 0);
}

#[test]
fn aligned_region_is_one_block() {
    let allocator = Allocator::new(0x4000, 0x8000);
    assert_eq!(free_lists(&allocator), vec![(14, vec![0x4000])]);
}

#[test]
fn odd_region_leaves_less_than_a_word() {
    let allocator = Allocator::new(0x1003, 0x1028);
    // 0x1003 (1), 0x1004 (4), 0x1008 (8), 0x1010 (16), 0x1020 (8): 5 bytes are left.
    assert_eq!(
        free_lists(&allocator),
        vec![(0, vec![0x1003]), (2, vec![0x1004]), (3, vec![0x1008, 0x1020]), (4, vec![0x1010])]
    );
    assert_eq!(allocator.total_bytes(), 0x1028 - 0x1003);
}

#[test]
fn empty_region_has_no_blocks() {
    assert!(free_lists(&Allocator::new(0x1000, 0x1007)).is_empty());
    assert!(free_lists(&Allocator::new(0x2000, 0x1000)).is_empty());
    assert_eq!(Allocator::new(0x2000, 0x1000).total_bytes(), 0);
    let mut allocator = Allocator::new(0x1000, 0x1000);
    assert_eq!(allocator.allocate(layout(1, 1)), Err(AllocErr));
}

#[test]
fn split_and_merge_restore_the_free_lists() {
    let mut allocator = Allocator::new(0x1000, 0x5000);
    let before = free_lists(&allocator);
    let first = allocator.allocate(layout(16, 16)).unwrap();
    let second = allocator.allocate(layout(16, 16)).unwrap();
    assert_eq!(first, 0x4000);
    assert_eq!(second, 0x4010);
    assert_eq!(allocator.allocated_bytes(), 32);
    allocator.dealloc(first, layout(16, 16));
    allocator.dealloc(second, layout(16, 16));
    assert_eq!(allocator.allocated_bytes(), 0);
    // Every byte is free again, in the blocks that the region was cut into.
    assert_eq!(free_lists(&allocator), before);
    let free: usize = free_lists(&allocator).iter().map(|(class, blocks)| blocks.len() << class).sum();
    assert_eq!(free, 0x4000);
}

#[test]
fn split_and_merge_restore_a_single_block() {
    let mut allocator = Allocator::new(0x4000, 0x8000);
    let first = allocator.allocate(layout(16, 1)).unwrap();
    let second = allocator.allocate(layout(16, 1)).unwrap();
    assert_eq!((first, second), (0x4000, 0x4010));
    allocator.dealloc(first, layout(16, 1));
    assert_eq!(allocator.free_blocks(4), vec![0x4000]);
    allocator.dealloc(second, layout(16, 1));
    assert_eq!(free_lists(&allocator), vec![(14, vec![0x4000])]);
}

#[test]
fn splitting_puts_the_upper_halves_on_the_lists() {
    let mut allocator = Allocator::new(0x4000, 0x8000);
    assert_eq!(allocator.allocate(layout(0x400, 8)), Ok(0x4000));
    assert_eq!(
        free_lists(&allocator),
        vec![(10, vec![0x4400]), (11, vec![0x4800]), (12, vec![0x5000]), (13, vec![0x6000])]
    );
    assert_eq!(allocator.allocated_bytes(), 0x400);
}

#[test]
fn size_class_covers_size_alignment_and_a_word() {
    assert_eq!(Allocator::class_for(layout(0, 1)), 3);
    assert_eq!(Allocator::class_for(layout(1, 1)), 3);
    assert_eq!(Allocator::class_for(layout(8, 8)), 3);
    assert_eq!(Allocator::class_for(layout(9, 1)), 4);
    assert_eq!(Allocator::class_for(layout(16, 1)), 4);
    assert_eq!(Allocator::class_for(layout(17, 1)), 5);
    assert_eq!(Allocator::class_for(layout(1, 4096)), 12);
    assert_eq!(Allocator::class_for(layout(5000, 64)), 13);
    assert_eq!(Allocator::class_for(layout(1 << 31, 1)), 31);
    assert_eq!(Allocator::class_for(layout((1 << 31) + 1, 1)), 32);
    assert_eq!(Allocator::class_for(layout(usize::MAX, 1)), 32);
}

#[test]
fn blocks_are_aligned_to_their_layout() {
    let mut allocator = Allocator::new(0x1008, 0x9000);
    let address = allocator.allocate(layout(24, 256)).unwrap();
    assert_eq!(address % 256, 0);
    let small = allocator.allocate(layout(3, 1)).unwrap();
    assert_eq!(small % 8, 0);
    assert_ne!(small, address);
}

#[test]
fn exhaustion_is_an_error_and_changes_nothing() {
    let mut allocator = Allocator::new(0x4000, 0x4040);
    let a = allocator.allocate(layout(32, 1)).unwrap();
    let b = allocator.allocate(layout(32, 1)).unwrap();
    assert_eq!((a, b), (0x4000, 0x4020));
    assert_eq!(allocator.allocate(layout(8, 8)), Err(AllocErr));
    assert_eq!(allocator.allocate(layout(128, 1)), Err(AllocErr));
    assert_eq!(allocator.allocate(layout(usize::MAX, 1)), Err(AllocErr));
    assert_eq!(allocator.allocated_bytes(), 64);
    assert!(free_lists(&allocator).is_empty());
    allocator.dealloc(b, layout(32, 1));
    assert_eq!(allocator.allocate(layout(32, 32)), Ok(0x4020));
}

#[test]
fn buddies_are_merged_only_when_both_are_free() {
    let mut allocator = Allocator::new(0x4000, 0x4040);
    let a = allocator.allocate(layout(16, 1)).unwrap();
    let b = allocator.allocate(layout(16, 1)).unwrap();
    let c = allocator.allocate(layout(16, 1)).unwrap();
    let d = allocator.allocate(layout(16, 1)).unwrap();
    assert_eq!((a, b, c, d), (0x4000, 0x4010, 0x4020, 0x4030));
    // b and c are neighbours but no buddies.
    allocator.dealloc(b, layout(16, 1));
    allocator.dealloc(c, layout(16, 1));
    assert_eq!(free_lists(&allocator), vec![(4, vec![0x4010, 0x4020])]);
    allocator.dealloc(a, layout(16, 1));
    assert_eq!(free_lists(&allocator), vec![(4, vec![0x4020]), (5, vec![0x4000])]);
    allocator.dealloc(d, layout(16, 1));
    assert_eq!(free_lists(&allocator), vec![(6, vec![0x4000])]);
}

#[test]
fn no_two_free_buddies_after_any_dealloc() {
    let mut allocator = Allocator::new(0x10000, 0x20000);
    let mut held = Vec::new();
    for i in 0..40usize {
        let size = 8 << (i % 5);
        held.push((allocator.allocate(layout(size, 1)).unwrap(), size));
    }
    // Give back every other block, then the rest.
    for round in 0..2 {
        let mut i = round;
        while i < held.len() {
            let (address, size) = held[i];
            allocator.dealloc(address, layout(size, 1));
            for (class, blocks) in free_lists(&allocator) {
                for block in &blocks {
                    assert_eq!(block % (1 << class), 0);
                    assert!(!blocks.contains(&(block ^ (1 << class))));
                }
            }
            i += 2;
        }
    }
    assert_eq!(free_lists(&allocator), vec![(16, vec![0x10000])]);
    assert_eq!(allocator.allocated_bytes(), 0);
}

#[test]
fn free_and_allocated_bytes_add_up() {
    let mut allocator = Allocator::new(0x1000, 0x5000);
    let a = allocator.allocate(layout(100, 1)).unwrap();
    let _b = allocator.allocate(layout(1000, 1)).unwrap();
    allocator.dealloc(a, layout(100, 1));
    let free: usize = free_lists(&allocator).iter().map(|(class, blocks)| blocks.len() << class).sum();
    assert_eq!(allocator.allocated_bytes(), 1024);
    assert_eq!(free + allocator.allocated_bytes(), allocator.total_bytes());
}

#[test]
fn powers_of_two() {
    assert_eq!(size_of_class(0), 1);
    assert_eq!(size_of_class(3), 8);
    assert_eq!(size_of_class(31), 1 << 31);
    assert_eq!(prev_power_of_two(1), 1);
    assert_eq!(prev_power_of_two(2), 2);
    assert_eq!(prev_power_of_two(3), 2);
    assert_eq!(prev_power_of_two(0x3000), 0x2000);
    assert_eq!(prev_power_of_two(0x4000), 0x4000);
    assert_eq!(prev_power_of_two(usize::MAX), 1 << 31);
    assert!(allocator_has_no_class(32));
}

fn allocator_has_no_class(class: usize) -> bool {
    Allocator::new(0x1000, 0x2000).free_blocks(class).is_empty()
}

#[test]
fn region_may_lie_anywhere() {
    let base: usize = 0x7000_0000_0000;
    let mut allocator = Allocator::new(base + 0x1000, base + 0x5000);
    assert_eq!(
        free_lists(&allocator),
        vec![(12, vec![base + 0x1000, base + 0x4000]), (13, vec![base + 0x2000])]
    );
    let first = allocator.allocate(layout(0x2000, 8)).unwrap();
    assert_eq!(first, base + 0x2000);
    allocator.dealloc(first, layout(0x2000, 8));
    assert_eq!(allocator.allocated_bytes(), 0);
    assert_eq!(allocator.total_bytes(), 0x4000);
    // A region of almost 4 GiB that ends at the last address.
    let high = Allocator::new(usize::MAX - 0xFFFF_FFFE, usize::MAX);
    assert!(0xFFFF_FFFE - high.total_bytes() < 8);
}
