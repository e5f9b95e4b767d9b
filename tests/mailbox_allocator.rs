use inko::global_allocator::GlobalAllocator;
use inko::local_allocator::LocalAllocator;
use inko::mailbox_allocator::MailboxAllocator;
use inko::object::{Object, ObjectValue};

fn mailbox_allocator() -> (MailboxAllocator, GlobalAllocator) {
    let global = GlobalAllocator::without_preallocated_blocks();

    (MailboxAllocator::new(), global)
}

#[test]
fn test_allocate() {
    let (mut alloc, mut global) = mailbox_allocator();
    let pointer = alloc.allocate(&mut global, Object::new(ObjectValue::Nil)).unwrap();

    assert!(pointer.is_mailbox());
    assert!(alloc.object(pointer).unwrap().value.is_none());
}

#[test]
fn test_copy_object() {
    let (mut mbox_alloc, mut global) = mailbox_allocator();
    let mut local_alloc = LocalAllocator::new();

    let original = local_alloc
        .allocate_without_prototype(&mut global, ObjectValue::Integer(5))
        .unwrap();

    let copy = mbox_alloc.copy_object(&mut global, &local_alloc, original).unwrap();

    assert!(copy.is_mailbox());
    assert!(mbox_alloc.object(copy).unwrap().value.is_integer());
    assert_eq!(mbox_alloc.object(copy).unwrap().value.as_integer(), Ok(5));
}

#[test]
fn test_drop() {
    let (mut alloc, mut global) = mailbox_allocator();

    alloc.allocate(&mut global, Object::new(ObjectValue::Nil));

    alloc.release(&mut global);

    assert_eq!(global.blocks.len(), 1);
}

#[test]
fn test_allocation_threshold_exceeded() {
    let (mut alloc, _global) = mailbox_allocator();

    alloc.block_allocation_threshold = 1;

    assert_eq!(alloc.allocation_threshold_exceeded(), false);

    alloc.block_allocations = 1;

    assert!(alloc.allocation_threshold_exceeded());
}

#[test]
fn test_increment_threshold() {
    let (mut alloc, _global) = mailbox_allocator();

    alloc.block_allocation_threshold = 1;

    // A factor of 1.5.
    alloc.increment_threshold(3, 2);

    assert_eq!(alloc.block_allocation_threshold, 2);
}

#[test]
fn test_increment_threshold_rounds_up_and_saturates() {
    let (mut alloc, _global) = mailbox_allocator();

    alloc.block_allocation_threshold = 10;
    alloc.increment_threshold(11, 10);
    assert_eq!(alloc.block_allocation_threshold, 11);

    alloc.block_allocation_threshold = usize::MAX;
    alloc.increment_threshold(2, 1);
    assert_eq!(alloc.block_allocation_threshold, usize::MAX);
}

#[test]
fn test_new_block_counts_as_allocation() {
    let (mut alloc, mut global) = mailbox_allocator();

    assert_eq!(alloc.block_allocation_threshold, 32);

    alloc.allocate(&mut global, Object::new(ObjectValue::Nil));
    alloc.allocate(&mut global, Object::new(ObjectValue::Nil));

    assert_eq!(alloc.block_allocations, 1);
    assert_eq!(alloc.bucket.blocks.len(), 1);
}

#[test]
fn test_reclaim_returns_empty_blocks() {
    let (mut alloc, mut global) = mailbox_allocator();

    alloc.allocate(&mut global, Object::new(ObjectValue::Nil));
    alloc.reclaim_blocks(&mut global);

    assert_eq!(alloc.bucket.blocks.len(), 0);
    assert_eq!(global.len(), 1);

    alloc.allocate(&mut global, Object::new(ObjectValue::Nil));

    assert_eq!(global.len(), 0);
    assert_eq!(alloc.bucket.blocks.len(), 1);
}

#[test]
fn test_release_returns_reset_blocks() {
    let (mut alloc, mut global) = mailbox_allocator();

    for _ in 0..1100 {
        alloc.allocate(&mut global, Object::new(ObjectValue::Nil));
    }

    assert_eq!(alloc.block_allocations, 2);

    alloc.release(&mut global);

    assert_eq!(global.len(), 2);

    for block in global.blocks.iter() {
        assert!(block.bucket.is_none());
        assert!(block.used_lines_bitmap.is_empty());
        assert!(block.free_pointer == block.start_address());
    }
}

#[test]
fn test_prepare_for_collection_on_mailbox() {
    let (mut alloc, mut global) = mailbox_allocator();

    alloc.allocate(&mut global, Object::new(ObjectValue::Nil));
    assert_eq!(alloc.prepare_for_collection(), false);

    alloc.bucket.blocks[0].holes = 20;
    assert!(alloc.prepare_for_collection());
    assert!(alloc.bucket.blocks[0].is_fragmented());
}

#[test]
fn test_reclaim_keeps_blocks_in_use() {
    let (mut alloc, mut global) = mailbox_allocator();

    for _ in 0..1100 {
        alloc.allocate(&mut global, Object::new(ObjectValue::Nil));
    }
    for block in alloc.bucket.blocks.iter_mut() {
        block.reset_bitmaps();
    }
    alloc.bucket.blocks[1].marked_objects_bitmap.set(4);
    alloc.bucket.blocks[1].used_lines_bitmap.set(1);

    let kept = alloc.bucket.blocks[1].lines;

    alloc.reclaim_blocks(&mut global);

    assert_eq!(alloc.bucket.blocks.len(), 1);
    assert_eq!(alloc.bucket.blocks[0].lines, kept);
    assert!(alloc.bucket.blocks[0].used_lines_bitmap.is_set(1));
    assert_eq!(global.len(), 1);
}
