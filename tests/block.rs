use inko::block::{Block, BlockStatus, MAILBOX, YOUNG};
use inko::object::{Object, ObjectValue};

const BASE: usize = 32768;

#[test]
fn test_block_new() {
    let block = Block::new(BASE);

    assert_eq!(block.lines == 0, false);
    assert_eq!(block.free_pointer == 0, false);
    assert_eq!(block.end_pointer == 0, false);
    assert!(block.bucket.is_none());
}

#[test]
fn test_block_reset_bitmaps() {
    let mut block = Block::new(BASE);

    block.used_lines_bitmap.set(1);
    block.marked_objects_bitmap.set(1);
    block.reset_bitmaps();

    assert!(block.used_lines_bitmap.is_empty());
    assert!(block.marked_objects_bitmap.is_empty());
}

#[test]
fn test_block_bucket_without_bucket() {
    let block = Block::new(BASE);

    assert!(block.bucket().is_none());
}

#[test]
fn test_block_bucket_with_bucket() {
    let mut block = Block::new(BASE);

    block.set_bucket(YOUNG);

    assert!(block.bucket().is_some());
}

#[test]
fn test_block_is_recyclable() {
    let mut block = Block::new(BASE);

    assert_eq!(block.is_recyclable(), false);

    block.set_recyclable();

    assert!(block.is_recyclable());
}

#[test]
fn test_block_is_fragmented() {
    let mut block = Block::new(BASE);

    assert_eq!(block.is_fragmented(), false);

    block.set_fragmented();

    assert!(block.is_fragmented());
}

#[test]
fn test_block_should_evacuate() {
    let mut block = Block::new(BASE);

    assert_eq!(block.should_evacuate(), false);

    block.set_recyclable();

    assert!(block.should_evacuate());

    block.set_fragmented();

    assert!(block.should_evacuate());
}

#[test]
fn test_block_is_available() {
    let mut block = Block::new(BASE);

    assert!(block.is_available());

    block.set_recyclable();

    assert!(block.is_available());

    block.set_fragmented();

    assert_eq!(block.is_available(), false);
}

#[test]
fn test_block_is_empty() {
    let mut block = Block::new(BASE);

    assert!(block.is_empty());

    block.used_lines_bitmap.set(1);

    assert_eq!(block.is_empty(), false);
}

#[test]
fn test_block_start_address() {
    let block = Block::new(BASE);

    assert_eq!(block.start_address() == 0, false);
    assert_eq!(block.start_address(), BASE + 128);
}

#[test]
fn test_block_end_address() {
    let block = Block::new(BASE);

    assert_eq!(block.end_address() == 0, false);
    assert_eq!(block.end_address(), BASE + 32768);
}

#[test]
fn test_block_bump_allocate() {
    let mut block = Block::new(BASE);
    let obj = Object::new(ObjectValue::Integer(10));
    let pointer = block.bump_allocate(obj);

    assert!(block.object(pointer).unwrap().value.is_integer());
}

#[test]
fn test_block_can_bump_allocate() {
    let mut block = Block::new(BASE);

    assert!(block.can_bump_allocate());

    block.free_pointer = block.end_pointer;

    assert_eq!(block.can_bump_allocate(), false);
}

#[test]
fn test_line_index_of_pointer() {
    let block = Block::new(BASE);

    assert_eq!(block.line_index_of_pointer(block.free_pointer), 1);
}

#[test]
fn test_find_available_hole() {
    let mut block = Block::new(BASE);

    let pointer1 = block.bump_allocate(Object::new(ObjectValue::Nil));

    block.used_lines_bitmap.set(1);
    block.find_available_hole();

    let pointer2 = block.bump_allocate(Object::new(ObjectValue::Nil));

    block.used_lines_bitmap.set(2);
    block.used_lines_bitmap.set(3);
    block.find_available_hole();

    let pointer3 = block.bump_allocate(Object::new(ObjectValue::Nil));

    assert_eq!(pointer1.line_index(), 1);
    assert_eq!(pointer2.line_index(), 2);
    assert_eq!(pointer3.line_index(), 4);
}

#[test]
fn test_find_available_hole_full_block() {
    let mut block = Block::new(BASE);

    block.free_pointer = block.end_pointer;

    // The block has been used up, so the free pointer stays where it is.
    block.find_available_hole();

    assert!(block.free_pointer == block.end_pointer);
}

#[test]
fn test_set_full() {
    let mut block = Block::new(BASE);

    assert!(block.is_available());

    block.set_full();

    assert_eq!(block.is_available(), false);
}

#[test]
fn test_reset() {
    let mut block = Block::new(BASE);

    block.set_recyclable();
    block.holes = 4;

    block.free_pointer = block.end_address();
    block.end_pointer = block.start_address();
    block.set_bucket(YOUNG);
    block.used_lines_bitmap.set(1);
    block.marked_objects_bitmap.set(1);

    block.reset();

    assert!(block.is_available());
    assert_eq!(block.status, BlockStatus::Free);
    assert_eq!(block.holes, 1);
    assert!(block.free_pointer == block.start_address());
    assert!(block.end_pointer == block.end_address());
    assert!(block.bucket.is_none());
    assert!(block.used_lines_bitmap.is_empty());
    assert!(block.marked_objects_bitmap.is_empty());
}

#[test]
fn test_update_hole_count() {
    let mut block = Block::new(BASE);

    block.used_lines_bitmap.set(1);
    block.used_lines_bitmap.set(3);
    block.used_lines_bitmap.set(10);

    block.update_hole_count();

    assert_eq!(block.holes, 3);
}

#[test]
fn test_update_hole_count_edges() {
    let mut block = Block::new(BASE);

    block.update_hole_count();
    assert_eq!(block.holes, 1);

    for line in 1..256 {
        block.used_lines_bitmap.set(line);
    }
    block.update_hole_count();
    assert_eq!(block.holes, 0);

    block.used_lines_bitmap.unset(255);
    block.used_lines_bitmap.unset(2);
    block.update_hole_count();
    assert_eq!(block.holes, 2);
}

#[test]
fn test_marked_lines_count() {
    let mut block = Block::new(BASE);

    assert_eq!(block.marked_lines_count(), 0);

    block.used_lines_bitmap.set(1);

    assert_eq!(block.marked_lines_count(), 1);
    assert_eq!(block.used_lines_bitmap.len(), 1);
}

#[test]
fn test_available_lines_count() {
    let mut block = Block::new(BASE);

    assert_eq!(block.available_lines_count(), 255);

    block.used_lines_bitmap.set(1);

    assert_eq!(block.available_lines_count(), 254);
}

#[test]
fn test_pointer_masks_to_its_block() {
    let mut block = Block::new(5 * BASE);

    for _ in 0..1020 {
        let pointer = block.bump_allocate(Object::new(ObjectValue::Nil));

        assert_eq!(pointer.block_address(), block.lines);
        assert!(block.start_address() <= block.free_pointer);
        assert!(block.free_pointer <= block.end_address());
    }

    assert_eq!(block.can_bump_allocate(), false);
}

#[test]
fn test_mailbox_block_tags_its_pointers() {
    let mut block = Block::new(BASE);

    block.set_bucket(MAILBOX);

    let pointer = block.bump_allocate(Object::new(ObjectValue::Nil));

    assert!(pointer.is_mailbox());
    assert_eq!(pointer.block_address(), BASE);
    assert_eq!(pointer.line_index(), 1);
    assert!(block.object(pointer).unwrap().value.is_none());
}
