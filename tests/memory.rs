use inko::block::{MAILBOX, YOUNG};
use inko::bucket::Bucket;
use inko::call_frame::CallFrame;
use inko::global_allocator::GlobalAllocator;
use inko::local_allocator::LocalAllocator;
use inko::mailbox_allocator::MailboxAllocator;
use inko::object::{Object, ObjectValue};

#[test]
fn test_global_allocator_hands_out_fresh_then_returned_blocks() {
    let mut global = GlobalAllocator::without_preallocated_blocks();

    let first = global.request_block().unwrap();
    let second = global.request_block().unwrap();

    assert_eq!(first.lines, 32768);
    assert_eq!(second.lines, 65536);
    assert_eq!(global.len(), 0);

    global.add_block(first);
    assert_eq!(global.len(), 1);

    let again = global.request_block().unwrap();
    assert_eq!(again.lines, 32768);
    assert!(again.bucket.is_none());
    assert_eq!(global.len(), 0);
}

#[test]
fn test_bucket_allocates_into_owned_blocks() {
    let mut global = GlobalAllocator::without_preallocated_blocks();
    let mut bucket = Bucket::with_age(YOUNG);
    let mut new_blocks = 0;

    for i in 0..3000 {
        let (new_block, pointer) = bucket
            .allocate(&mut global, Object::new(ObjectValue::Integer(i)))
            .unwrap();

        if new_block {
            new_blocks += 1;
        }

        let block = bucket.find_block(pointer.block_address()).unwrap();

        assert_eq!(bucket.blocks[block].bucket(), Some(YOUNG));
        assert_eq!(pointer.raw & !0x7FFF, bucket.blocks[block].lines);
        assert_eq!(bucket.object(pointer).unwrap().value.as_integer(), Ok(i));
        assert!(!pointer.is_mailbox());

        for block in bucket.blocks.iter() {
            assert!(block.start_address() <= block.free_pointer);
            assert!(block.free_pointer <= block.end_address());
        }
    }

    // 1020 objects fit a block.
    assert_eq!(new_blocks, 3);
    assert_eq!(bucket.blocks.len(), 3);
}

#[test]
fn test_bucket_recycles_holes_after_reclaim() {
    let mut global = GlobalAllocator::without_preallocated_blocks();
    let mut bucket = Bucket::with_age(YOUNG);

    for i in 0..1020 {
        bucket.allocate(&mut global, Object::new(ObjectValue::Integer(i)));
    }
    for i in 0..10 {
        bucket.allocate(&mut global, Object::new(ObjectValue::Integer(i)));
    }
    assert_eq!(bucket.blocks.len(), 2);

    for block in bucket.blocks.iter_mut() {
        block.reset_bitmaps();
    }
    bucket.blocks[0].used_lines_bitmap.set(1);
    bucket.blocks[0].used_lines_bitmap.set(3);

    let freed = bucket.reclaim_blocks();

    assert_eq!(freed.len(), 1);
    assert_eq!(bucket.blocks.len(), 1);
    assert_eq!(bucket.blocks[0].holes, 2);
    assert!(bucket.blocks[0].is_recyclable());
}

#[test]
fn test_prepare_for_collection_marks_the_most_fragmented_blocks() {
    let mut global = GlobalAllocator::without_preallocated_blocks();
    let mut bucket = Bucket::with_age(YOUNG);

    for i in 0..(1020 * 6) {
        bucket.allocate(&mut global, Object::new(ObjectValue::Integer(i)));
    }
    assert_eq!(bucket.blocks.len(), 6);

    let holes = [3, 20, 9, 30, 12, 40];

    for (block, count) in bucket.blocks.iter_mut().zip(holes.iter()) {
        block.holes = *count;
    }

    assert!(bucket.prepare_for_collection());

    let fragmented: Vec<bool> = bucket.blocks.iter().map(|b| b.is_fragmented()).collect();

    assert_eq!(fragmented, vec![false, true, false, true, true, true]);
}

#[test]
fn test_prepare_for_collection_without_fragmentation() {
    let mut global = GlobalAllocator::without_preallocated_blocks();
    let mut bucket = Bucket::with_age(YOUNG);

    bucket.allocate(&mut global, Object::new(ObjectValue::Nil));

    assert_eq!(bucket.prepare_for_collection(), false);
    assert_eq!(bucket.blocks[0].is_fragmented(), false);
}

#[test]
fn test_copy_round_trip_keeps_structure_and_cycles() {
    let mut global = GlobalAllocator::without_preallocated_blocks();
    let mut local = LocalAllocator::new();
    let mut mailbox = MailboxAllocator::new();

    let five = local.allocate_without_prototype(&mut global, ObjectValue::Integer(5)).unwrap();
    let text = local
        .allocate_without_prototype(&mut global, ObjectValue::String("hello".to_string()))
        .unwrap();
    let array = local
        .allocate_without_prototype(&mut global, ObjectValue::Array(vec![five, text, five]))
        .unwrap();

    // Close a cycle: the array holds itself.
    local.set_object(array, Object::new(ObjectValue::Array(vec![five, text, five, array])));

    let in_mailbox = mailbox.copy_object(&mut global, &local, array).unwrap();

    let mut back = LocalAllocator::new();
    let copy = back.copy_object(&mut global, &mailbox, in_mailbox).unwrap();

    assert!(in_mailbox.is_mailbox());
    assert!(!copy.is_mailbox());

    let elements = back.object(copy).unwrap().value.as_array().unwrap().clone();

    assert_eq!(elements.len(), 4);
    assert!(elements[0] == elements[2]);
    assert!(elements[3] == copy);
    assert_eq!(back.object(elements[0]).unwrap().value.as_integer(), Ok(5));

    match &back.object(elements[1]).unwrap().value {
        ObjectValue::String(s) => assert_eq!(s, "hello"),
        _ => panic!("expected a string"),
    }
}

#[test]
fn test_copy_of_missing_object_fails() {
    let mut global = GlobalAllocator::without_preallocated_blocks();
    let local = LocalAllocator::new();
    let mut mailbox = MailboxAllocator::new();

    let missing = inko::object::ObjectPointer { raw: 32768 + 128 };

    assert!(mailbox.copy_object(&mut global, &local, missing).is_none());
}

#[test]
fn test_release_returns_every_block() {
    let mut global = GlobalAllocator::without_preallocated_blocks();
    let mut local = LocalAllocator::new();

    for i in 0..2100 {
        local.allocate_without_prototype(&mut global, ObjectValue::Integer(i));
    }

    assert_eq!(local.young_block_allocations, 3);

    local.release(&mut global);

    assert_eq!(global.len(), 3);
    assert_eq!(local.young.blocks.len(), 0);

    let mut mailbox = MailboxAllocator::new();
    let pointer = mailbox.allocate(&mut global, Object::new(ObjectValue::Nil)).unwrap();

    assert_eq!(global.len(), 2);
    assert_eq!(mailbox.bucket.blocks[0].bucket(), Some(MAILBOX));
    assert!(pointer.is_mailbox());
}

#[test]
fn test_collect_returns_dead_blocks_and_keeps_live_lines() {
    let mut global = GlobalAllocator::without_preallocated_blocks();
    let mut process = inko::vm::Process::new(1);

    for i in 0..1020 {
        process.allocate_without_prototype(&mut global, ObjectValue::Integer(i)).unwrap();
    }

    let live = process.allocate_without_prototype(&mut global, ObjectValue::Integer(7)).unwrap();

    for i in 0..40 {
        process.allocate_without_prototype(&mut global, ObjectValue::Integer(i)).unwrap();
    }

    let array = process
        .allocate_without_prototype(&mut global, ObjectValue::Array(vec![live]))
        .unwrap();

    process.set_register(0, array);

    assert_eq!(process.local.young.blocks.len(), 2);

    process.collect(&mut global);

    // The first block held nothing reachable and went back to the pool.
    assert_eq!(global.len(), 1);
    assert_eq!(process.local.young.blocks.len(), 1);
    assert_eq!(process.local.young_block_allocations, 0);

    let block = &process.local.young.blocks[0];

    // `live` sits in line 1 of the second block, `array` in line 11.
    assert_eq!(block.marked_lines_count(), 2);
    assert!(block.used_lines_bitmap.is_set(live.line_index()));
    assert!(block.used_lines_bitmap.is_set(array.line_index()));
    assert_eq!(block.marked_objects_bitmap.len(), 2);
    assert!(block.is_recyclable());
    assert_eq!(block.holes, 2);

    let object = process.object(array).unwrap();
    assert!(object.value.as_array().unwrap()[0] == live);
}

#[test]
fn test_collect_without_roots_empties_the_heap() {
    let mut global = GlobalAllocator::without_preallocated_blocks();
    let mut process = inko::vm::Process::new(1);

    for i in 0..3000 {
        process.allocate_without_prototype(&mut global, ObjectValue::Integer(i)).unwrap();
    }

    process.collect(&mut global);

    assert_eq!(process.local.young.blocks.len(), 0);
    assert_eq!(global.len(), 3);
}

#[test]
fn test_call_frame_parent() {
    let parent = CallFrame::new("main".to_string(), "main.inko".to_string(), 1);
    let mut frame = CallFrame::new("foo".to_string(), "foo.inko".to_string(), 12);

    assert!(frame.parent.is_none());

    frame.set_parent(parent);

    assert_eq!(frame.parent.as_ref().unwrap().name, "main");
    assert_eq!(frame.line, 12);
}

#[test]
fn test_promote_moves_an_object_to_the_mature_generation() {
    let mut global = GlobalAllocator::without_preallocated_blocks();
    let mut local = LocalAllocator::new();

    let young = local.allocate_without_prototype(&mut global, ObjectValue::Integer(8)).unwrap();
    let mature = local.promote(&mut global, young).unwrap();

    assert!(young != mature);
    assert_eq!(local.mature.blocks.len(), 1);
    assert_eq!(local.object(mature).unwrap().value.as_integer(), Ok(8));
    assert!(local.resolve(young) == mature);
    assert!(local.resolve(mature) == mature);

    match local.object(young).unwrap().value {
        ObjectValue::Forwarded(to) => assert!(to == mature),
        _ => panic!("expected a forwarding object"),
    }

    let missing = inko::object::ObjectPointer { raw: 7 * 32768 + 128 };

    assert!(local.promote(&mut global, missing).is_none());
}

#[test]
fn test_process_exit_returns_every_block() {
    let mut global = GlobalAllocator::without_preallocated_blocks();
    let mut process = inko::vm::Process::new(3);

    for i in 0..1500 {
        process.allocate_without_prototype(&mut global, ObjectValue::Integer(i)).unwrap();
    }
    process.mailbox.allocate(&mut global, Object::new(ObjectValue::Nil)).unwrap();

    assert_eq!(process.should_collect(), false);

    process.local.young_block_allocation_threshold = 2;

    assert!(process.should_collect());

    process.exit(&mut global);

    assert_eq!(global.len(), 3);
    assert_eq!(process.local.young.blocks.len(), 0);
    assert_eq!(process.mailbox.bucket.blocks.len(), 0);
}
