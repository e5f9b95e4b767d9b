//! The allocator of a process's mailbox heap. Messages sent to a process are
//! copied into this heap.
use vstd::prelude::*;

use crate::block::MAILBOX;
use crate::bucket::{
    Bucket,
    MAX_EVACUATED_BLOCKS,
    all_lines_marked,
    eligible,
    in_use,
    marked_count,
    marked_now,
    reclaimed,
    contents_kept,
};
use crate::global_allocator::{GlobalAllocator, apart, taken_from};
use crate::object::{BLOCK_SIZE, Object, ObjectPointer};

verus! {

/// `threshold` multiplied by `numerator / denominator`, rounded up, at most
/// `usize::MAX`.
pub open spec fn scaled_threshold(threshold: int, numerator: int, denominator: int) -> int {
    let t = (threshold * numerator + denominator - 1) / denominator;
    if t > usize::MAX {
        usize::MAX as int
    } else {
        t
    }
}

/// Multiplies `threshold` by `numerator / denominator`, rounding up, and
/// saturating at `usize::MAX`.
pub fn scale_threshold(threshold: usize, numerator: usize, denominator: usize) -> (r: usize)
    requires
        denominator > 0,
    ensures
        r == scaled_threshold(threshold as int, numerator as int, denominator as int),
{
    let t = threshold as u128;
    let n = numerator as u128;
    let d = denominator as u128;
    assert(t * n <= 0xFFFF_FFFF_FFFF_FFFF * 0xFFFF_FFFF_FFFF_FFFF) by (nonlinear_arith)
        requires
            t <= 0xFFFF_FFFF_FFFF_FFFF,
            n <= 0xFFFF_FFFF_FFFF_FFFF,
    ;
    let scaled = (t * n + (d - 1)) / d;
    if scaled > usize::MAX as u128 {
        usize::MAX
    } else {
        scaled as usize
    }
}

pub struct MailboxAllocator {
    pub bucket: Bucket,
    /// The number of blocks allocated since the last collection.
    pub block_allocations: usize,
    /// The number of blocks that can be allocated before a collection is due.
    pub block_allocation_threshold: usize,
}

impl MailboxAllocator {
    pub open spec fn wf(&self) -> bool {
        self.bucket.wf() && self.bucket.age == MAILBOX
    }

    pub fn new() -> (r: Self)
        ensures
            r.wf(),
            r.bucket.blocks@.len() == 0,
            r.block_allocations == 0,
            r.block_allocation_threshold == 32,
    {
        MailboxAllocator {
            bucket: Bucket::with_age(MAILBOX),
            block_allocations: 0,
            block_allocation_threshold: (1 * 1024 * 1024) / BLOCK_SIZE,
        }
    }

    /// Allocates `object` in the mailbox heap; the pointer carries the
    /// mailbox tag. Fails only when `global` can supply no block.
    pub fn allocate(&mut self, global: &mut GlobalAllocator, object: Object) -> (r: Option<
        ObjectPointer,
    >)
        requires
            old(self).wf(),
            old(global).wf(),
            apart(old(self).bucket.blocks@, *old(global)),
        ensures
            final(self).wf(),
            final(global).wf(),
            apart(final(self).bucket.blocks@, *final(global)),
            taken_from(*old(global), *final(global)),
            r is None ==> !old(global).can_supply() && !final(global).can_supply(),
            old(self).bucket.blocks@.len() <= final(self).bucket.blocks@.len() <= old(
                self,
            ).bucket.blocks@.len() + 1,
            forall|i: int|
                0 <= i < old(self).bucket.blocks@.len() ==> #[trigger] final(self).bucket.blocks@[i].lines
                    == old(self).bucket.blocks@[i].lines,
            r matches Some(p) ==> final(self).bucket.object_of(p) == Some(object)
                && p.spec_is_mailbox(),
            final(self).block_allocation_threshold == old(self).block_allocation_threshold,
            final(self).block_allocations == if final(self).bucket.blocks@.len()
                > old(self).bucket.blocks@.len() && old(self).block_allocations < usize::MAX {
                old(self).block_allocations + 1
            } else {
                old(self).block_allocations as int
            },
    {
        match self.bucket.allocate(global, object) {
            Some((new_block, pointer)) => {
                if new_block && self.block_allocations < usize::MAX {
                    self.block_allocations = self.block_allocations + 1;
                }
                Some(pointer)
            },
            None => None,
        }
    }

    /// The object `pointer` points to, if it lies in this heap.
    pub fn object(&self, pointer: ObjectPointer) -> (r: Option<&Object>)
        requires
            self.wf(),
        ensures
            match r {
                Some(o) => self.bucket.object_of(pointer) == Some(*o),
                None => self.bucket.object_of(pointer) is None,
            },
    {
        self.bucket.object(pointer)
    }

    /// Prepares a collection cycle; returns true when objects are to be
    /// evacuated.
    pub fn prepare_for_collection(&mut self) -> (r: bool)
        requires
            old(self).wf(),
        ensures
            final(self).wf(),
            final(self).block_allocations == old(self).block_allocations,
            final(self).block_allocation_threshold == old(self).block_allocation_threshold,
            final(self).bucket.blocks@.len() == old(self).bucket.blocks@.len(),
            r == exists|i: int|
                0 <= i < old(self).bucket.blocks@.len() && eligible(
                    #[trigger] old(self).bucket.blocks@[i],
                ),
            forall|i: int|
                0 <= i < old(self).bucket.blocks@.len() ==> #[trigger] final(self).bucket.blocks@[i]
                    == old(self).bucket.blocks@[i] || marked_now(
                    old(self).bucket.blocks@[i],
                    final(self).bucket.blocks@[i],
                ),
            forall|i: int, j: int|
                0 <= i < old(self).bucket.blocks@.len() && 0 <= j < old(
                    self,
                ).bucket.blocks@.len() && marked_now(
                    old(self).bucket.blocks@[i],
                    #[trigger] final(self).bucket.blocks@[i],
                ) && eligible(#[trigger] final(self).bucket.blocks@[j])
                    ==> final(self).bucket.blocks@[j].holes <= final(self).bucket.blocks@[i].holes,
            marked_count(
                old(self).bucket.blocks@,
                final(self).bucket.blocks@,
                old(self).bucket.blocks@.len() as int,
            ) <= MAX_EVACUATED_BLOCKS,
            marked_count(
                old(self).bucket.blocks@,
                final(self).bucket.blocks@,
                old(self).bucket.blocks@.len() as int,
            ) < MAX_EVACUATED_BLOCKS ==> forall|i: int|
                0 <= i < old(self).bucket.blocks@.len() ==> !eligible(
                    #[trigger] final(self).bucket.blocks@[i],
                ),
    {
        self.bucket.prepare_for_collection()
    }

    /// Hands the blocks with no line in use back to `global`.
    pub fn reclaim_blocks(&mut self, global: &mut GlobalAllocator)
        requires
            old(self).wf(),
            old(global).wf(),
            apart(old(self).bucket.blocks@, *old(global)),
        ensures
            final(self).wf(),
            final(global).wf(),
            apart(final(self).bucket.blocks@, *final(global)),
            final(global).blocks@.len() + final(self).bucket.blocks@.len() == old(
                global,
            ).blocks@.len() + old(self).bucket.blocks@.len(),
            forall|i: int|
                0 <= i < final(self).bucket.blocks@.len() ==> reclaimed(
                    #[trigger] final(self).bucket.blocks@[i],
                ),
            contents_kept(final(self).bucket.blocks@, old(self).bucket.blocks@),
            forall|k: int|
                0 <= k < old(self).bucket.blocks@.len() && in_use(
                    #[trigger] old(self).bucket.blocks@[k],
                ) ==> exists|i: int|
                    0 <= i < final(self).bucket.blocks@.len() && final(self).bucket.blocks@[i].lines
                        == old(self).bucket.blocks@[k].lines,
            all_lines_marked(old(self).bucket.blocks@) ==> all_lines_marked(
                final(self).bucket.blocks@,
            ),
            forall|j: int|
                0 <= j < old(global).blocks@.len() ==> #[trigger] final(global).blocks@[j]
                    == old(global).blocks@[j],
            forall|j: int|
                old(global).blocks@.len() <= j < final(global).blocks@.len() ==> !in_use(
                    #[trigger] final(global).blocks@[j],
                ) && exists|k: int|
                    0 <= k < old(self).bucket.blocks@.len() && final(global).blocks@[j]
                        == old(self).bucket.blocks@[k],
            final(self).block_allocation_threshold == old(self).block_allocation_threshold,
    {
        let ghost b0 = self.bucket.blocks@;
        self.bucket.reclaim_into(global);
        proof {
            let b1 = self.bucket.blocks@;
            assert forall|k: int| 0 <= k < b0.len() && in_use(#[trigger] b0[k]) implies exists|i: int|
                0 <= i < b1.len() && b1[i].lines == b0[k].lines by {
                let i = choose|i: int| 0 <= i < b1.len() && b1[i].lines == b0[k].lines;
                assert(b1[i].lines == b0[k].lines);
            }
        }
    }

    /// Whether enough blocks were allocated since the last collection for
    /// another one to be due.
    pub fn allocation_threshold_exceeded(&self) -> (r: bool)
        ensures
            r == (self.block_allocations >= self.block_allocation_threshold),
    {
        self.block_allocations >= self.block_allocation_threshold
    }

    /// Multiplies the allocation threshold by `numerator / denominator`,
    /// rounding up.
    pub fn increment_threshold(&mut self, numerator: usize, denominator: usize)
        requires
            denominator > 0,
        ensures
            final(self).block_allocation_threshold == scaled_threshold(
                old(self).block_allocation_threshold as int,
                numerator as int,
                denominator as int,
            ),
            final(self).bucket == old(self).bucket,
            final(self).block_allocations == old(self).block_allocations,
    {
        self.block_allocation_threshold = scale_threshold(
            self.block_allocation_threshold,
            numerator,
            denominator,
        );
    }

    /// Returns every block of the heap to `global`, reset.
    pub fn release(&mut self, global: &mut GlobalAllocator)
        requires
            old(self).wf(),
            old(global).wf(),
            apart(old(self).bucket.blocks@, *old(global)),
        ensures
            final(self).wf(),
            final(self).bucket.blocks@.len() == 0,
            final(global).wf(),
            final(global).blocks@.len() == old(global).blocks@.len() + old(
                self,
            ).bucket.blocks@.len(),
            forall|j: int|
                0 <= j < old(global).blocks@.len() ==> #[trigger] final(global).blocks@[j]
                    == old(global).blocks@[j],
            forall|j: int|
                old(global).blocks@.len() <= j < final(global).blocks@.len() ==> (
                #[trigger] final(global).blocks@[j]).is_pristine() && exists|i: int|
                    0 <= i < old(self).bucket.blocks@.len() && final(global).blocks@[j].lines
                        == old(self).bucket.blocks@[i].lines,
    {
        self.bucket.release(global);
    }
}

} // verus!
