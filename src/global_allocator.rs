//! The pool of free blocks that every heap takes blocks from and returns
//! blocks to.
use vstd::prelude::*;

use crate::block::{Block, MAX_BLOCK_ADDRESS};
use crate::object::BLOCK_SIZE;

verus! {

pub struct GlobalAllocator {
    /// Blocks that no heap owns.
    pub blocks: Vec<Block>,
    /// The address the next block made from scratch starts at.
    pub next_address: usize,
}

/// The blocks `blocks` and the pool of `global` have nothing in common, and
/// no block of `blocks` starts at or after the pool's next fresh address.
pub open spec fn apart(blocks: Seq<Block>, global: GlobalAllocator) -> bool {
    &&& forall|i: int| 0 <= i < blocks.len() ==> #[trigger] blocks[i].lines < global.next_address
    &&& forall|i: int, j: int|
        0 <= i < blocks.len() && 0 <= j < global.blocks@.len() ==> #[trigger] blocks[i].lines
            != #[trigger] global.blocks@[j].lines
}

/// No two blocks of `blocks` start at the same address.
pub open spec fn distinct(blocks: Seq<Block>) -> bool {
    forall|i: int, j: int|
        0 <= i < blocks.len() && 0 <= j < blocks.len() && i != j ==> #[trigger] blocks[i].lines
            != #[trigger] blocks[j].lines
}

/// Some block in the pool of `global` starts at address `a`.
pub open spec fn in_pool(global: GlobalAllocator, a: int) -> bool {
    exists|k: int| 0 <= k < global.blocks@.len() && global.blocks@[k].lines == a
}

/// Every block in the pool of `after` was in the pool of `before`.
pub open spec fn pool_shrunk(before: GlobalAllocator, after: GlobalAllocator) -> bool {
    forall|j: int|
        0 <= j < after.blocks@.len() ==> in_pool(before, #[trigger] after.blocks@[j].lines as int)
}

/// `after` is `before` after blocks were taken from it.
pub open spec fn taken_from(before: GlobalAllocator, after: GlobalAllocator) -> bool {
    before.next_address <= after.next_address && pool_shrunk(before, after)
}

/// Taking blocks twice is taking blocks.
pub proof fn lemma_taken_from_trans(a: GlobalAllocator, b: GlobalAllocator, c: GlobalAllocator)
    requires
        taken_from(a, b),
        taken_from(b, c),
    ensures
        taken_from(a, c),
{
    assert forall|j: int| 0 <= j < c.blocks@.len() implies in_pool(
        a,
        #[trigger] c.blocks@[j].lines as int,
    ) by {
        assert(in_pool(b, c.blocks@[j].lines as int));
        let m = choose|m: int| 0 <= m < b.blocks@.len() && b.blocks@[m].lines == c.blocks@[j].lines;
        assert(in_pool(a, b.blocks@[m].lines as int));
    }
}

/// Taking nothing is taking blocks.
pub proof fn lemma_taken_from_refl(a: GlobalAllocator)
    ensures
        taken_from(a, a),
{
    assert forall|j: int| 0 <= j < a.blocks@.len() implies in_pool(
        a,
        #[trigger] a.blocks@[j].lines as int,
    ) by {
        assert(a.blocks@[j].lines == a.blocks@[j].lines);
    }
}

/// Taking a block from the pool keeps every other set of blocks apart from it.
pub proof fn lemma_apart_after_request(blocks: Seq<Block>, before: GlobalAllocator, after: GlobalAllocator)
    requires
        apart(blocks, before),
        taken_from(before, after),
    ensures
        apart(blocks, after),
{
    assert forall|i: int, j: int|
        0 <= i < blocks.len() && 0 <= j < after.blocks@.len() implies #[trigger] blocks[i].lines
        != #[trigger] after.blocks@[j].lines by {
        assert(in_pool(before, after.blocks@[j].lines as int));
        let k = choose|k: int|
            0 <= k < before.blocks@.len() && before.blocks@[k].lines == after.blocks@[j].lines;
        assert(blocks[i].lines != before.blocks@[k].lines);
    }
}

impl GlobalAllocator {
    pub open spec fn wf(&self) -> bool {
        &&& self.next_address % 32768 == 0
        &&& 0 < self.next_address
        &&& forall|i: int| 0 <= i < self.blocks@.len() ==> (#[trigger] self.blocks@[i]).wf()
        &&& forall|i: int|
            0 <= i < self.blocks@.len() ==> #[trigger] self.blocks@[i].lines < self.next_address
        &&& distinct(self.blocks@)
    }

    /// Whether a block can still be handed out.
    pub open spec fn can_supply(&self) -> bool {
        self.blocks@.len() > 0 || self.next_address <= MAX_BLOCK_ADDRESS
    }

    /// A pool without any blocks in it.
    pub fn without_preallocated_blocks() -> (r: Self)
        ensures
            r.wf(),
            r.blocks@.len() == 0,
            r.next_address == 32768,
            r.can_supply(),
    {
        GlobalAllocator { blocks: Vec::new(), next_address: BLOCK_SIZE }
    }

    /// The number of free blocks in the pool.
    pub fn len(&self) -> (r: usize)
        ensures
            r == self.blocks@.len(),
    {
        self.blocks.len()
    }

    /// Hands out a free block, reset: one from the pool when there is one,
    /// else a fresh one. Returns `None` only once the address space is used
    /// up.
    pub fn request_block(&mut self) -> (r: Option<Block>)
        requires
            old(self).wf(),
        ensures
            final(self).wf(),
            r is Some <==> old(self).can_supply(),
            r is None ==> *final(self) == *old(self),
            old(self).next_address <= final(self).next_address <= old(self).next_address + 32768,
            r matches Some(b) ==> {
                &&& b.wf()
                &&& b.is_pristine()
                &&& b.lines < final(self).next_address
                &&& forall|j: int|
                    0 <= j < final(self).blocks@.len() ==> #[trigger] final(self).blocks@[j].lines
                        != b.lines
                &&& (old(self).blocks@.len() > 0 || b.lines == old(self).next_address)
                &&& (old(self).blocks@.len() > 0 ==> exists|k: int|
                    0 <= k < old(self).blocks@.len() && old(self).blocks@[k].lines == b.lines)
            },
            pool_shrunk(*old(self), *final(self)),
            final(self).blocks@.len() <= old(self).blocks@.len(),
    {
        if self.blocks.len() > 0 {
            let ghost before = self.blocks@;
            let mut block = self.blocks.pop().unwrap();
            assert(self.blocks@ =~= before.drop_last());
            assert forall|j: int| 0 <= j < self.blocks@.len() implies #[trigger] self.blocks@[j].lines
                != block.lines by {
                assert(before[j] == self.blocks@[j]);
                assert(before[before.len() - 1] == block);
            }
            assert forall|j: int| 0 <= j < self.blocks@.len() implies exists|k: int|
                0 <= k < before.len() && #[trigger] self.blocks@[j].lines == before[k].lines by {
                assert(before[j] == self.blocks@[j]);
            }
            assert(before[before.len() - 1] == block);
            block.reset();
            Some(block)
        } else if self.next_address <= MAX_BLOCK_ADDRESS {
            let block = Block::new(self.next_address);
            self.next_address = self.next_address + BLOCK_SIZE;
            Some(block)
        } else {
            None
        }
    }

    /// Puts a block back into the pool.
    pub fn add_block(&mut self, block: Block)
        requires
            old(self).wf(),
            block.wf(),
            block.lines < old(self).next_address,
            forall|j: int| 0 <= j < old(self).blocks@.len() ==> #[trigger] old(self).blocks@[j].lines
                != block.lines,
        ensures
            final(self).wf(),
            final(self).blocks@ == old(self).blocks@.push(block),
            final(self).next_address == old(self).next_address,
    {
        self.blocks.push(block);
    }
}

} // verus!
