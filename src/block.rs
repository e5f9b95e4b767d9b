//! Immix blocks: 32 KB of memory made of 256 lines of 128 bytes each.
use vstd::prelude::*;

use crate::bitmap::{Bitmap, LineMap, ObjectMap, count_set, lemma_count_set_zero};
use crate::object::{
    BLOCK_SIZE,
    BYTES_PER_OBJECT,
    LINE_MASK,
    LINE_SIZE,
    MAILBOX_TAG,
    Object,
    ObjectPointer,
    block_of,
    lemma_block_mask,
    lemma_line_mask,
};

verus! {

/// The number of lines in a block.
pub const LINES_PER_BLOCK: usize = 256;

/// The number of object slots in a block.
pub const OBJECTS_PER_BLOCK: usize = 1024;

/// The number of object slots in a line.
pub const OBJECTS_PER_LINE: usize = 4;

/// The first slot objects are allocated into: the first line is reserved for
/// the block header.
pub const OBJECT_START_SLOT: usize = 4;

/// The first line objects are allocated into.
pub const LINE_START_SLOT: usize = 1;

/// The offset in bytes of the first object in a block.
pub const FIRST_OBJECT_BYTE_OFFSET: usize = 128;

/// The highest address a block may start at, so that every address inside
/// it fits a `usize`.
pub const MAX_BLOCK_ADDRESS: usize = usize::MAX - 0xFFFF;

/// The age of the young generation.
pub const YOUNG: u8 = 0;

/// The age of the mature generation.
pub const MATURE: u8 = 1;

/// The age of mailbox heaps.
pub const MAILBOX: u8 = 2;

/// The age of objects that are never collected.
pub const PERMANENT: u8 = 3;

/// The state of a block.
#[derive(Debug, Clone, Copy, PartialEq, Eq, Structural)]
pub enum BlockStatus {
    /// The block is empty.
    Free,
    /// The block has holes that can be allocated into.
    Recyclable,
    /// The block is full.
    Full,
    /// The block is fragmented and its objects should be evacuated.
    Fragmented,
}

/// The first line at or after `i` that is not in use, or the number of lines.
pub open spec fn first_free_line(used: Seq<bool>, i: int) -> int
    decreases used.len() - i,
{
    if i >= used.len() || i < 0 {
        used.len() as int
    } else if !used[i] {
        i
    } else {
        first_free_line(used, i + 1)
    }
}

/// The number of holes among the lines `1..n`: maximal runs of lines not in
/// use, counted by the line each starts at.
pub open spec fn holes_in(used: Seq<bool>, n: int) -> nat
    decreases n,
{
    if n <= 1 {
        0
    } else {
        holes_in(used, n - 1) + if !used[n - 1] && (n - 1 == 1 || used[n - 2]) {
            1nat
        } else {
            0nat
        }
    }
}

/// The number of holes of a line map: maximal runs of unused lines among
/// lines `1..256`.
pub open spec fn hole_count(used: Seq<bool>) -> nat {
    holes_in(used, used.len() as int)
}

/// A map with an unset bit has fewer set bits than bits.
pub proof fn lemma_count_set_unset(s: Seq<bool>, i: int)
    requires
        0 <= i < s.len(),
        !s[i],
    ensures
        count_set(s) < s.len(),
    decreases s.len(),
{
    crate::bitmap::lemma_count_set_bound(s.drop_last());
    if i < s.len() - 1 {
        lemma_count_set_unset(s.drop_last(), i);
    }
}

/// There are no more holes than lines.
pub proof fn lemma_holes_bound(used: Seq<bool>, n: int)
    ensures
        holes_in(used, n) <= if n < 0 {
            0
        } else {
            n
        },
    decreases n,
{
    if n > 1 {
        lemma_holes_bound(used, n - 1);
    }
}

/// A 32 KB region starting at the address `lines`, with the state needed to
/// allocate into it and to collect it.
pub struct Block {
    /// The address of the block's first byte. The first line is reserved for
    /// the block header.
    pub lines: usize,
    pub status: BlockStatus,
    /// Which object slots hold live objects.
    pub marked_objects_bitmap: ObjectMap,
    /// Which lines hold one or more live objects.
    pub used_lines_bitmap: LineMap,
    /// The address to allocate the next object at.
    pub free_pointer: usize,
    /// The address objects may not be allocated at or beyond.
    pub end_pointer: usize,
    /// The age of the bucket that owns the block, if any does.
    pub bucket: Option<u8>,
    /// The number of holes in this block.
    pub holes: usize,
    /// The object held by each slot.
    pub objects: Vec<Option<Object>>,
}

impl Block {
    /// The address of the first slot objects are allocated into.
    pub open spec fn start(&self) -> int {
        self.lines + 128
    }

    /// The address just past the block.
    pub open spec fn end(&self) -> int {
        self.lines + 32768
    }

    /// The slot of this block that the address `p` lies in.
    pub open spec fn slot_of(&self, p: int) -> int {
        (p - self.lines) / 32
    }

    pub open spec fn wf(&self) -> bool {
        &&& self.lines % 32768 == 0
        &&& 0 < self.lines <= MAX_BLOCK_ADDRESS
        &&& self.marked_objects_bitmap@.len() == 1024
        &&& self.used_lines_bitmap@.len() == 256
        &&& !self.used_lines_bitmap@[0]
        &&& self.objects@.len() == 1024
        &&& self.start() <= self.free_pointer <= self.end_pointer <= self.end()
        &&& (self.free_pointer - self.lines) % 32 == 0
        &&& (self.end_pointer - self.lines) % 32 == 0
    }

    /// The state of a block fresh from `reset`, leaving its objects aside.
    pub open spec fn is_pristine(&self) -> bool {
        &&& self.status == BlockStatus::Free
        &&& self.holes == 1
        &&& self.free_pointer == self.start()
        &&& self.end_pointer == self.end()
        &&& self.bucket is None
        &&& forall|i: int| 0 <= i < 1024 ==> !self.marked_objects_bitmap@[i]
        &&& forall|i: int| 0 <= i < 256 ==> !self.used_lines_bitmap@[i]
    }

    /// A block of the region starting at `lines`.
    pub fn new(lines: usize) -> (r: Block)
        requires
            lines % 32768 == 0,
            0 < lines <= MAX_BLOCK_ADDRESS,
        ensures
            r.wf(),
            r.is_pristine(),
            r.lines == lines,
            forall|i: int| 0 <= i < 1024 ==> r.objects@[i] is None,
    {
        let mut objects: Vec<Option<Object>> = Vec::new();
        let mut i: usize = 0;
        while i < OBJECTS_PER_BLOCK
            invariant
                i <= 1024,
                objects@.len() == i,
                forall|j: int| 0 <= j < i ==> objects@[j] is None,
            decreases 1024 - i,
        {
            objects.push(None);
            i = i + 1;
        }
        Block {
            lines: lines,
            status: BlockStatus::Free,
            marked_objects_bitmap: Bitmap::object_map(),
            used_lines_bitmap: Bitmap::line_map(),
            free_pointer: lines + FIRST_OBJECT_BYTE_OFFSET,
            end_pointer: lines + BLOCK_SIZE,
            bucket: None,
            holes: 1,
            objects: objects,
        }
    }

    /// Clears the object and line bitmaps for a collection cycle.
    pub fn reset_bitmaps(&mut self)
        requires
            old(self).wf(),
        ensures
            final(self).wf(),
            final(self).lines == old(self).lines,
            final(self).status == old(self).status,
            final(self).free_pointer == old(self).free_pointer,
            final(self).end_pointer == old(self).end_pointer,
            final(self).bucket == old(self).bucket,
            final(self).holes == old(self).holes,
            final(self).objects == old(self).objects,
            forall|i: int| 0 <= i < 1024 ==> !final(self).marked_objects_bitmap@[i],
            forall|i: int| 0 <= i < 256 ==> !final(self).used_lines_bitmap@[i],
    {
        self.used_lines_bitmap.reset();
        self.marked_objects_bitmap.reset();
    }

    /// The age of the bucket that owns this block, if any.
    pub fn bucket(&self) -> (r: Option<u8>)
        ensures
            r == self.bucket,
    {
        self.bucket
    }

    pub fn set_bucket(&mut self, age: u8)
        ensures
            *final(self) == (Block { bucket: Some(age), ..*old(self) }),
    {
        self.bucket = Some(age);
    }

    pub fn is_recyclable(&self) -> (r: bool)
        ensures
            r == (self.status == BlockStatus::Recyclable),
    {
        self.status == BlockStatus::Recyclable
    }

    pub fn set_recyclable(&mut self)
        ensures
            *final(self) == (Block { status: BlockStatus::Recyclable, ..*old(self) }),
    {
        self.status = BlockStatus::Recyclable;
    }

    pub fn is_fragmented(&self) -> (r: bool)
        ensures
            r == (self.status == BlockStatus::Fragmented),
    {
        self.status == BlockStatus::Fragmented
    }

    pub fn set_fragmented(&mut self)
        ensures
            *final(self) == (Block { status: BlockStatus::Fragmented, ..*old(self) }),
    {
        self.status = BlockStatus::Fragmented;
    }

    pub fn set_full(&mut self)
        ensures
            *final(self) == (Block { status: BlockStatus::Full, ..*old(self) }),
    {
        self.status = BlockStatus::Full;
    }

    /// Returns true when the block's objects should be evacuated.
    pub fn should_evacuate(&self) -> (r: bool)
        ensures
            r == (self.status == BlockStatus::Recyclable || self.status
                == BlockStatus::Fragmented),
    {
        self.is_recyclable() || self.is_fragmented()
    }

    /// Returns true when the block can be allocated into.
    pub fn is_available(&self) -> (r: bool)
        ensures
            r == (self.status == BlockStatus::Free || self.status == BlockStatus::Recyclable),
    {
        match self.status {
            BlockStatus::Free => true,
            BlockStatus::Recyclable => true,
            _ => false,
        }
    }

    /// Returns true when no line is in use.
    pub fn is_empty(&self) -> (r: bool)
        ensures
            r == (forall|i: int| 0 <= i < self.used_lines_bitmap@.len() ==> !self.used_lines_bitmap@[i]),
    {
        self.used_lines_bitmap.is_empty()
    }

    /// The address of the first slot objects are allocated into.
    pub fn start_address(&self) -> (r: usize)
        requires
            self.wf(),
        ensures
            r == self.start(),
    {
        self.lines + FIRST_OBJECT_BYTE_OFFSET
    }

    /// The address just past the block. Nothing is allocated there; it only
    /// bounds the block.
    pub fn end_address(&self) -> (r: usize)
        requires
            self.wf(),
        ensures
            r == self.end(),
    {
        self.lines + BLOCK_SIZE
    }

    /// Returns true when an object fits before the end pointer.
    pub fn can_bump_allocate(&self) -> (r: bool)
        ensures
            r == (self.free_pointer < self.end_pointer),
    {
        self.free_pointer < self.end_pointer
    }

    /// Places `object` at the free pointer and moves the free pointer to the
    /// next slot. The pointer returned carries the mailbox tag when the block
    /// belongs to a mailbox heap.
    pub fn bump_allocate(&mut self, object: Object) -> (r: ObjectPointer)
        requires
            old(self).wf(),
            old(self).free_pointer < old(self).end_pointer,
        ensures
            final(self).wf(),
            final(self).free_pointer == old(self).free_pointer + 32,
            final(self).objects@ == old(self).objects@.update(
                old(self).slot_of(old(self).free_pointer as int),
                Some(object),
            ),
            r.address() == old(self).free_pointer,
            r.spec_is_mailbox() == (old(self).bucket == Some(MAILBOX)),
            block_of(r.raw) == old(self).lines,
            old(self).slot_of(r.raw as int) == old(self).slot_of(old(self).free_pointer as int),
            4 <= old(self).slot_of(r.raw as int) < 1024,
            final(self).lines == old(self).lines,
            final(self).status == old(self).status,
            final(self).marked_objects_bitmap == old(self).marked_objects_bitmap,
            final(self).used_lines_bitmap == old(self).used_lines_bitmap,
            final(self).end_pointer == old(self).end_pointer,
            final(self).bucket == old(self).bucket,
            final(self).holes == old(self).holes,
    {
        let slot = (self.free_pointer - self.lines) / BYTES_PER_OBJECT;
        self.objects.set(slot, Some(object));
        let raw = if self.bucket == Some(MAILBOX) {
            self.free_pointer + MAILBOX_TAG
        } else {
            self.free_pointer
        };
        proof {
            lemma_block_mask(self.lines, (raw - self.lines) as usize);
        }
        self.free_pointer = self.free_pointer + BYTES_PER_OBJECT;
        ObjectPointer { raw }
    }

    /// The object the slot `pointer` points into holds.
    pub fn object(&self, pointer: ObjectPointer) -> (r: Option<&Object>)
        requires
            self.wf(),
            self.lines <= pointer.raw < self.end(),
        ensures
            match r {
                Some(o) => self.objects@[self.slot_of(pointer.raw as int)] == Some(*o),
                None => self.objects@[self.slot_of(pointer.raw as int)] is None,
            },
    {
        self.objects[(pointer.raw - self.lines) / BYTES_PER_OBJECT].as_ref()
    }

    /// The index of the line that the address `pointer` lies in.
    pub fn line_index_of_pointer(&self, pointer: usize) -> (r: usize)
        requires
            self.wf(),
            self.lines <= pointer < self.end(),
        ensures
            r == (pointer - self.lines) / 128,
            r < 256,
    {
        proof {
            lemma_line_mask(pointer);
            assert((pointer - pointer % 128 - self.lines) / 128 == (pointer - self.lines) / 128)
                by (nonlinear_arith)
                requires
                    self.lines % 32768 == 0,
                    self.lines <= pointer,
            ;
        }
        ((pointer & LINE_MASK) - self.lines) / LINE_SIZE
    }

    /// Moves the free and end pointers to the next line after the free
    /// pointer's line that is not in use, if there is one. Does nothing when
    /// the block has been used up.
    pub fn find_available_hole(&mut self)
        requires
            old(self).wf(),
        ensures
            final(self).wf(),
            ({
                let h = first_free_line(
                    old(self).used_lines_bitmap@,
                    (old(self).free_pointer - old(self).lines) / 128 + 1,
                );
                if old(self).free_pointer != old(self).end() && h < 256 {
                    &&& final(self).free_pointer == old(self).lines + 128 * h
                    &&& final(self).end_pointer == old(self).lines + 128 * h + 128
                } else {
                    &&& final(self).free_pointer == old(self).free_pointer
                    &&& final(self).end_pointer == old(self).end_pointer
                }
            }),
            final(self).lines == old(self).lines,
            final(self).status == old(self).status,
            final(self).marked_objects_bitmap == old(self).marked_objects_bitmap,
            final(self).used_lines_bitmap == old(self).used_lines_bitmap,
            final(self).bucket == old(self).bucket,
            final(self).holes == old(self).holes,
            final(self).objects == old(self).objects,
    {
        if self.free_pointer == self.end_address() {
            return;
        }
        let line_index = self.line_index_of_pointer(self.free_pointer);
        let ghost used = self.used_lines_bitmap@;
        let mut index = line_index + 1;
        while index < LINES_PER_BLOCK
            invariant
                self.wf(),
                *self == *old(self),
                used == self.used_lines_bitmap@,
                line_index < 256,
                line_index == (old(self).free_pointer - old(self).lines) / 128,
                old(self).free_pointer != old(self).end(),
                line_index + 1 <= index <= 256,
                first_free_line(used, line_index + 1) == first_free_line(used, index as int),
            decreases 256 - index,
        {
            if !self.used_lines_bitmap.is_set(index) {
                let free = self.lines + index * LINE_SIZE;
                assert((index * 128) % 32 == 0) by (nonlinear_arith);
                self.free_pointer = free;
                self.end_pointer = free + LINE_SIZE;
                return;
            }
            index = index + 1;
        }
    }

    /// Resets the block to a pristine state. The objects it holds are left
    /// alone: whoever allocates into it overwrites them.
    pub fn reset(&mut self)
        requires
            old(self).wf(),
        ensures
            final(self).wf(),
            final(self).is_pristine(),
            final(self).lines == old(self).lines,
            final(self).objects == old(self).objects,
    {
        self.status = BlockStatus::Free;
        self.holes = 1;
        self.free_pointer = self.start_address();
        self.end_pointer = self.end_address();
        self.bucket = None;
        self.reset_bitmaps();
    }

    /// Counts the holes of the block: maximal runs of unused lines among
    /// lines `1..256`.
    pub fn update_hole_count(&mut self)
        requires
            old(self).wf(),
        ensures
            final(self).wf(),
            final(self).holes == hole_count(old(self).used_lines_bitmap@),
            *final(self) == (Block { holes: final(self).holes, ..*old(self) }),
    {
        let ghost used = self.used_lines_bitmap@;
        let mut in_hole = false;
        let mut holes: usize = 0;
        let mut index: usize = LINE_START_SLOT;
        while index < LINES_PER_BLOCK
            invariant
                self.wf(),
                *self == *old(self),
                used == self.used_lines_bitmap@,
                1 <= index <= 256,
                in_hole == (index > 1 && !used[index - 1]),
                holes == holes_in(used, index as int),
            decreases 256 - index,
        {
            proof {
                lemma_holes_bound(used, index as int);
            }
            let is_set = self.used_lines_bitmap.is_set(index);
            if in_hole && is_set {
                in_hole = false;
            } else if !in_hole && !is_set {
                in_hole = true;
                holes = holes + 1;
            }
            index = index + 1;
        }
        self.holes = holes;
    }

    /// The number of lines in use.
    pub fn marked_lines_count(&self) -> (r: usize)
        ensures
            r == count_set(self.used_lines_bitmap@),
    {
        self.used_lines_bitmap.len()
    }

    /// The number of lines objects could be allocated into.
    pub fn available_lines_count(&self) -> (r: usize)
        requires
            self.wf(),
        ensures
            r == 255 - count_set(self.used_lines_bitmap@),
    {
        proof {
            lemma_count_set_unset(self.used_lines_bitmap@, 0);
        }
        (LINES_PER_BLOCK - 1) - self.marked_lines_count()
    }
}

} // verus!
